//! Callable metadata: builtin functions, `io` API names, arity and the
//! table of every function a compilation unit knows.

use vstd::prelude::*;

use crate::ast::ZType;
use crate::text::str_eq;

verus! {

pub const BUILTIN_CALL_RUST: &'static str = "call_rust";

pub const BUILTIN_CALL_SYS: &'static str = "call_sys";

/// Standard library `io` functions (only callable after `import io`).
pub open spec fn io_function_names() -> Seq<Seq<char>> {
    seq!["print"@, "input_s"@, "input"@, "set_stream"@]
}

/// The names of the standard library `io` functions.
pub fn io_functions() -> (v: Vec<&'static str>)
    ensures
        v@.len() == io_function_names().len(),
        forall|k: int| 0 <= k < v@.len() ==> v@[k]@ == io_function_names()[k],
{
    proof {
        reveal_strlit("print");
        reveal_strlit("input_s");
        reveal_strlit("input");
        reveal_strlit("set_stream");
    }
    let mut v: Vec<&'static str> = Vec::new();
    v.push("print");
    v.push("input_s");
    v.push("input");
    v.push("set_stream");
    v
}

/// Metadata for every callable function known to the compilation unit.
#[derive(Debug)]
pub struct FnInfo {
    /// Fixed arity. `None` means the arity is unknown (raw `.rs` header) or
    /// variable (`io` functions are checked specially).
    pub arity: Option<usize>,
    /// Declared parameter types (`None` = dynamic), for Zero functions.
    pub params: Vec<Option<ZType>>,
}

pub struct FnInfoV {
    pub arity: Option<usize>,
    pub params: Seq<Option<ZType>>,
}

impl View for FnInfo {
    type V = FnInfoV;

    open spec fn view(&self) -> FnInfoV {
        FnInfoV { arity: self.arity, params: self.params@ }
    }
}

/// The map that a list of distinct-name entries denotes.
pub open spec fn entries_map(entries: Seq<(String, FnInfo)>) -> Map<Seq<char>, FnInfoV>
    decreases entries.len(),
{
    if entries.len() == 0 {
        Map::empty()
    } else {
        let last = entries.last();
        entries_map(entries.drop_last()).insert(last.0@, last.1@)
    }
}

/// No name occurs twice.
pub open spec fn distinct_names(entries: Seq<(String, FnInfo)>) -> bool {
    forall|i: int, j: int|
        0 <= i < j < entries.len() ==> #[trigger] entries[i].0@ != #[trigger] entries[j].0@
}

/// Every callable function by name: each name at most once.
pub struct FnTable {
    entries: Vec<(String, FnInfo)>,
}

impl View for FnTable {
    type V = Map<Seq<char>, FnInfoV>;

    closed spec fn view(&self) -> Map<Seq<char>, FnInfoV> {
        entries_map(self.entries@)
    }
}

proof fn lemma_entries_map(entries: Seq<(String, FnInfo)>)
    requires
        distinct_names(entries),
    ensures
        forall|k: int|
            0 <= k < entries.len() ==> #[trigger] entries_map(entries).contains_key(entries[k].0@)
                && entries_map(entries)[entries[k].0@] == entries[k].1@,
        forall|n: Seq<char>|
            #[trigger] entries_map(entries).contains_key(n) ==> exists|k: int|
                0 <= k < entries.len() && entries[k].0@ == n,
    decreases entries.len(),
{
    if entries.len() > 0 {
        let init = entries.drop_last();
        assert(distinct_names(init));
        lemma_entries_map(init);
        assert forall|k: int| 0 <= k < entries.len() implies #[trigger] entries_map(
            entries,
        ).contains_key(entries[k].0@) && entries_map(entries)[entries[k].0@] == entries[k].1@ by {
            assert(entries_map(entries) == entries_map(init).insert(
                entries.last().0@,
                entries.last().1@,
            ));
            if k < entries.len() - 1 {
                assert(init[k] == entries[k]);
                assert(entries[k].0@ != entries[entries.len() - 1].0@);
                assert(entries_map(init).contains_key(init[k].0@));
            }
        }
        assert forall|n: Seq<char>| #[trigger] entries_map(entries).contains_key(n) implies exists|
            k: int,
        | 0 <= k < entries.len() && entries[k].0@ == n by {
            if n != entries.last().0@ {
                assert(entries_map(init).contains_key(n));
                let k = choose|k: int| 0 <= k < init.len() && init[k].0@ == n;
                assert(init[k] == entries[k]);
                assert(entries[k].0@ == n);
            } else {
                assert(entries[entries.len() - 1].0@ == n);
            }
        }
    }
}

impl FnTable {
    pub closed spec fn wf(&self) -> bool {
        distinct_names(self.entries@)
    }

    pub fn new() -> (t: FnTable)
        ensures
            t.wf(),
            t@ == Map::<Seq<char>, FnInfoV>::empty(),
    {
        FnTable { entries: Vec::new() }
    }

    /// The entry named `name`, if any.
    pub fn get(&self, name: &str) -> (r: Option<&FnInfo>)
        requires
            self.wf(),
        ensures
            match r {
                Some(info) => self@.contains_key(name@) && self@[name@] == info@,
                None => !self@.contains_key(name@),
            },
    {
        proof {
            lemma_entries_map(self.entries@);
        }
        let mut k: usize = 0;
        while k < self.entries.len()
            invariant
                self.wf(),
                k <= self.entries@.len(),
                forall|j: int| 0 <= j < k ==> #[trigger] self.entries@[j].0@ != name@,
            decreases self.entries@.len() - k,
        {
            if str_eq(self.entries[k].0.as_str(), name) {
                proof {
                    lemma_entries_map(self.entries@);
                    assert(entries_map(self.entries@).contains_key(self.entries@[k as int].0@));
                }
                return Some(&self.entries[k].1);
            }
            k = k + 1;
        }
        None
    }

    pub fn contains(&self, name: &str) -> (r: bool)
        requires
            self.wf(),
        ensures
            r == self@.contains_key(name@),
    {
        self.get(name).is_some()
    }

    /// Add an entry for a name the table does not hold.
    pub fn insert_new(&mut self, name: String, info: FnInfo)
        requires
            old(self).wf(),
            !old(self)@.contains_key(name@),
        ensures
            final(self).wf(),
            final(self)@ == old(self)@.insert(name@, info@),
    {
        proof {
            lemma_entries_map(self.entries@);
        }
        let ghost n = name@;
        self.entries.push((name, info));
        proof {
            assert(self.entries@.drop_last() =~= old(self).entries@);
            assert forall|i: int, j: int|
                0 <= i < j < self.entries@.len() implies #[trigger] self.entries@[i].0@
                != #[trigger] self.entries@[j].0@ by {
                if j == self.entries@.len() - 1 && self.entries@[i].0@ == n {
                    assert(old(self).entries@[i].0@ == n);
                }
            }
        }
    }

    /// Add an entry unless the name is already present.
    pub fn insert_if_absent(&mut self, name: String, info: FnInfo)
        requires
            old(self).wf(),
        ensures
            final(self).wf(),
            final(self)@ == (if old(self)@.contains_key(name@) {
                old(self)@
            } else {
                old(self)@.insert(name@, info@)
            }),
    {
        if !self.contains(name.as_str()) {
            self.insert_new(name, info);
        }
    }
}

} // verus!
