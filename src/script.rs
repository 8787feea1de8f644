use vstd::prelude::*;
use vstd::string::StringExecFns;
use crate::workspace::Workspace;

verus! {

/// The shell script that enters the workspace at `path` and loads its environment
/// file when there is one.
pub open spec fn script_of(path: Seq<char>) -> Seq<char> {
    "#!/usr/bin/env bash\nexport WORKSPACE="@ + path
        + "\ncd $WORKSPACE\nif [[ -f $WORKSPACE/workspace_env ]]; then\n    source $WORKSPACE/workspace_env\nfi\n"@
}

/// Writes the script that loads the chosen workspace.
pub fn generate_script(workspace: &Workspace) -> (r: String)
    ensures
        r@ == script_of(workspace@.path),
{
    let mut text = String::from_str("#!/usr/bin/env bash\nexport WORKSPACE=");
    text.append(workspace.path().as_str());
    text.append(
        "\ncd $WORKSPACE\nif [[ -f $WORKSPACE/workspace_env ]]; then\n    source $WORKSPACE/workspace_env\nfi\n",
    );
    text
}

} // verus!
