use vstd::multiset::Multiset;
use vstd::prelude::*;
use crate::workspace::{not_before, Workspace};

verus! {

broadcast use vstd::seq_lib::group_to_multiset_ensures;

/// Records ordered most recently modified first.
pub open spec fn newest_first(ws: Seq<Workspace>) -> bool {
    forall|i: int, j: int| 0 <= i < j < ws.len() ==> not_before(#[trigger] ws[i]@.modified, #[trigger] ws[j]@.modified)
}

/// The cursor after a step down a list of `len` items: the first item when none is
/// selected, else the next one, wrapping from the last to the first.
pub open spec fn next_cursor(c: Option<usize>, len: nat) -> Option<usize> {
    match c {
        None => Some(0usize),
        Some(i) => if i >= len - 1 {
            Some(0usize)
        } else {
            Some((i + 1) as usize)
        },
    }
}

/// The cursor after a step up a list of `len` items: the first item when none is
/// selected, else the one before, wrapping from the first to the last.
pub open spec fn previous_cursor(c: Option<usize>, len: nat) -> Option<usize> {
    match c {
        None => Some(0usize),
        Some(i) => if i == 0 {
            Some((len - 1) as usize)
        } else {
            Some((i - 1) as usize)
        },
    }
}

/// The cursor after `k` steps down.
pub open spec fn next_cursor_n(c: Option<usize>, len: nat, k: nat) -> Option<usize>
    decreases k,
{
    if k == 0 {
        c
    } else {
        next_cursor(next_cursor_n(c, len, (k - 1) as nat), len)
    }
}

/// The position that a missing cursor stands for.
pub open spec fn cursor_index(c: Option<usize>) -> usize {
    match c {
        None => 0usize,
        Some(i) => i,
    }
}

/// Resolves a cursor to a position: a missing cursor stands for the first item.
pub fn cursor_index_of(c: Option<usize>) -> (r: usize)
    ensures
        r == cursor_index(c),
{
    match c {
        Some(i) => i,
        None => 0,
    }
}

/// The records of one run of the picker, sorted once, with a cursor over them.
pub struct StatefulTable {
    items: Vec<Workspace>,
    selected: Option<usize>,
}

/// A key as the picker reads it.
#[derive(Clone, Copy, Debug, PartialEq, Eq, Structural)]
pub enum Key {
    Quit,
    Down,
    Up,
    Confirm,
    Other,
}

/// Where the picker stands after a key.
#[derive(Debug)]
pub enum Outcome {
    Running,
    Confirmed(Workspace),
    Cancelled,
}

impl StatefulTable {
    pub closed spec fn items(&self) -> Seq<Workspace> {
        self.items@
    }

    pub closed spec fn cursor(&self) -> Option<usize> {
        self.selected
    }

    /// The cursor is unset or on an item.
    pub open spec fn cursor_on_item(&self) -> bool {
        match self.cursor() {
            None => true,
            Some(i) => i < self.items().len(),
        }
    }

    /// Takes the records, sorted most recently modified first, with no cursor set.
    pub fn new(workspaces: Vec<Workspace>) -> (r: StatefulTable)
        ensures
            newest_first(r.items()),
            r.items().to_multiset() == workspaces@.to_multiset(),
            r.cursor() is None,
    {
        let mut rest = workspaces;
        let mut sorted: Vec<Workspace> = Vec::new();
        while rest.len() > 0
            invariant
                sorted@.to_multiset().add(rest@.to_multiset()) == workspaces@.to_multiset(),
                newest_first(sorted@),
                forall|i: int, j: int|
                    0 <= i < sorted@.len() && 0 <= j < rest@.len() ==> not_before(
                        #[trigger] sorted@[i]@.modified,
                        #[trigger] rest@[j]@.modified,
                    ),
            decreases rest@.len(),
        {
            let mut m: usize = 0;
            let mut j: usize = 1;
            while j < rest.len()
                invariant
                    0 <= m < j <= rest@.len(),
                    forall|k: int| 0 <= k < j ==> not_before(rest@[m as int]@.modified, #[trigger] rest@[k]@.modified),
                decreases rest@.len() - j,
            {
                let a = rest[j].modified();
                let b = rest[m].modified();
                if a.secs > b.secs || (a.secs == b.secs && a.nanos > b.nanos) {
                    m = j;
                }
                j = j + 1;
            }
            let ghost before = rest@;
            let ghost sorted_before = sorted@;
            let w = rest.remove(m);
            proof {
                assert forall|j2: int| 0 <= j2 < rest@.len() implies not_before(w@.modified, #[trigger] rest@[j2]@.modified) by {
                    if j2 < m {
                        assert(rest@[j2] == before[j2]);
                    } else {
                        assert(rest@[j2] == before[j2 + 1]);
                    }
                }
                assert(rest@.to_multiset() == before.to_multiset().remove(w));
                assert(before.to_multiset().contains(w));
            }
            sorted.push(w);
            proof {
                assert(sorted@.to_multiset() == sorted_before.to_multiset().insert(w));
                assert(sorted@.to_multiset().add(rest@.to_multiset()) =~= sorted_before.to_multiset().add(before.to_multiset()));
                assert forall|i: int, j2: int|
                    0 <= i < sorted@.len() && 0 <= j2 < rest@.len() implies not_before(
                        #[trigger] sorted@[i]@.modified,
                        #[trigger] rest@[j2]@.modified,
                    ) by {
                    if i < sorted_before.len() {
                        if j2 < m {
                            assert(rest@[j2] == before[j2]);
                        } else {
                            assert(rest@[j2] == before[j2 + 1]);
                        }
                        assert(sorted@[i] == sorted_before[i]);
                    }
                }
                assert forall|i: int, k: int| 0 <= i < k < sorted@.len() implies not_before(
                    #[trigger] sorted@[i]@.modified,
                    #[trigger] sorted@[k]@.modified,
                ) by {
                    if k < sorted_before.len() {
                        assert(sorted@[i] == sorted_before[i]);
                        assert(sorted@[k] == sorted_before[k]);
                    } else {
                        assert(sorted@[i] == sorted_before[i]);
                        assert(before[m as int] == w);
                    }
                }
            }
        }
        proof {
            assert(rest@.to_multiset() =~= Multiset::<Workspace>::empty());
            assert(sorted@.to_multiset().add(Multiset::<Workspace>::empty()) =~= sorted@.to_multiset());
        }
        StatefulTable { items: sorted, selected: None }
    }

    /// The records, in display order.
    pub fn workspaces(&self) -> (r: &Vec<Workspace>)
        ensures
            r@ == self.items(),
    {
        &self.items
    }

    /// The cursor.
    pub fn selected(&self) -> (r: Option<usize>)
        ensures
            r == self.cursor(),
    {
        self.selected
    }

    pub fn len(&self) -> (r: usize)
        ensures
            r == self.items().len(),
    {
        self.items.len()
    }

    /// Removes the record under the cursor (the first when none is set) and hands it
    /// out; the records after it move up by one.
    pub fn current(&mut self) -> (r: Workspace)
        requires
            cursor_index(old(self).cursor()) < old(self).items().len(),
        ensures
            r == old(self).items()[cursor_index(old(self).cursor()) as int],
            final(self).items() == old(self).items().remove(cursor_index(old(self).cursor()) as int),
            final(self).items().len() == old(self).items().len() - 1,
            final(self).cursor() == old(self).cursor(),
    {
        let i = cursor_index_of(self.selected);
        self.items.remove(i)
    }

    /// Moves the cursor one item down, wrapping from the last item to the first.
    pub fn next(&mut self)
        requires
            old(self).items().len() > 0,
        ensures
            final(self).items() == old(self).items(),
            final(self).cursor() == next_cursor(old(self).cursor(), old(self).items().len()),
            final(self).cursor_on_item(),
    {
        let i = match self.selected {
            Some(i) => {
                if i >= self.items.len() - 1 {
                    0
                } else {
                    i + 1
                }
            },
            None => 0,
        };
        self.selected = Some(i);
    }

    /// Moves the cursor one item up, wrapping from the first item to the last.
    pub fn previous(&mut self)
        requires
            old(self).items().len() > 0,
        ensures
            final(self).items() == old(self).items(),
            final(self).cursor() == previous_cursor(old(self).cursor(), old(self).items().len()),
            old(self).cursor_on_item() ==> final(self).cursor_on_item(),
    {
        let i = match self.selected {
            Some(i) => {
                if i == 0 {
                    self.items.len() - 1
                } else {
                    i - 1
                }
            },
            None => 0,
        };
        self.selected = Some(i);
    }

    /// Applies one key: quitting cancels, down and up move the cursor, confirming
    /// takes the record under the cursor, and any other key changes nothing.
    pub fn handle_key(&mut self, key: Key) -> (r: Outcome)
        requires
            key == Key::Down || key == Key::Up ==> old(self).items().len() > 0,
            key == Key::Confirm ==> cursor_index(old(self).cursor()) < old(self).items().len(),
        ensures
            match key {
                Key::Quit => r is Cancelled && *final(self) == *old(self),
                Key::Down => r is Running && final(self).items() == old(self).items()
                    && final(self).cursor() == next_cursor(old(self).cursor(), old(self).items().len()),
                Key::Up => r is Running && final(self).items() == old(self).items()
                    && final(self).cursor() == previous_cursor(old(self).cursor(), old(self).items().len()),
                Key::Confirm => r is Confirmed
                    && r->Confirmed_0 == old(self).items()[cursor_index(old(self).cursor()) as int]
                    && final(self).items() == old(self).items().remove(cursor_index(old(self).cursor()) as int)
                    && final(self).cursor() == old(self).cursor(),
                Key::Other => r is Running && *final(self) == *old(self),
            },
    {
        match key {
            Key::Quit => Outcome::Cancelled,
            Key::Down => {
                self.next();
                Outcome::Running
            },
            Key::Up => {
                self.previous();
                Outcome::Running
            },
            Key::Confirm => Outcome::Confirmed(self.current()),
            Key::Other => Outcome::Running,
        }
    }
}

/// Stepping down from a cursor on an item moves it `k` places on, modulo the length.
proof fn lemma_next_cursor_n(i: usize, len: nat, k: nat)
    requires
        i < len,
        len <= usize::MAX,
    ensures
        next_cursor_n(Some(i), len, k) == Some(((i + k) % (len as int)) as usize),
    decreases k,
{
    if k > 0 {
        lemma_next_cursor_n(i, len, (k - 1) as nat);
        let p = (i + (k - 1) as nat) % (len as int);
        assert(0 <= p < len) by (nonlinear_arith)
            requires len > 0, p == (i + (k - 1) as nat) % (len as int);
        assert(next_cursor_n(Some(i), len, (k - 1) as nat) == Some(p as usize));
        let q = (i + k) % (len as int);
        if p >= len - 1 {
            assert(q == 0) by (nonlinear_arith)
                requires len > 0, p == (i + (k - 1) as nat) % (len as int), p == len - 1, q == (i + k) % (len as int), k > 0;
        } else {
            assert(q == p + 1) by (nonlinear_arith)
                requires len > 0, p == (i + (k - 1) as nat) % (len as int), p + 1 < len, 0 <= p, q == (i + k) % (len as int), k > 0;
        }
        assert(next_cursor_n(Some(i), len, k) == next_cursor(Some(p as usize), len));
    } else {
        assert((i + k) % (len as int) == i) by (nonlinear_arith)
            requires i < len, k == 0;
    }
}

/// Stepping down as many times as there are items brings a cursor that is on an
/// item back to where it started.
pub proof fn lemma_next_wraps_around(i: usize, len: nat)
    requires
        i < len,
        len <= usize::MAX,
    ensures
        next_cursor_n(Some(i), len, len) == Some(i),
{
    lemma_next_cursor_n(i, len, len);
    assert((i + len) % (len as int) == i) by (nonlinear_arith)
        requires i < len;
}

/// A step up undoes a step down, and a step down undoes a step up, for a cursor
/// that is on an item.
pub proof fn lemma_previous_inverts_next(i: usize, len: nat)
    requires
        i < len,
        len <= usize::MAX,
    ensures
        previous_cursor(next_cursor(Some(i), len), len) == Some(i),
        next_cursor(previous_cursor(Some(i), len), len) == Some(i),
{
}

} // verus!
