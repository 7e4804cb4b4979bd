//! The decisions of the compile pipeline that come between parsing and
//! header loading.

use vstd::prelude::*;

use crate::ast::{Import, ImportV, Item, ItemV, Program};
use crate::diag::CompileError;

verus! {

/// Whether some item of the program is a top-level statement.
pub open spec fn has_top_spec(items: Seq<Item>) -> bool {
    exists|k: int| 0 <= k < items.len() && #[trigger] items[k] is Top
}

/// Whether the program defines `main`.
pub open spec fn has_main_spec(items: Seq<Item>) -> bool {
    exists|k: int| 0 <= k < items.len() && (#[trigger] items[k] matches Item::Function(f) && f.name@ == "main"@)
}

/// Whether the program has top-level statements.
pub fn has_top_level(prog: &Program) -> (r: bool)
    ensures
        r == has_top_spec(prog.items@),
{
    let mut k: usize = 0;
    while k < prog.items.len()
        invariant
            k <= prog.items@.len(),
            forall|j: int| 0 <= j < k ==> !(#[trigger] prog.items@[j] is Top),
        decreases prog.items@.len() - k,
    {
        if let Item::Top(_) = &prog.items[k] {
            return true;
        }
        k = k + 1;
    }
    false
}

/// Check the program's entry point: either top-level statements (and then
/// no `fn main`) or a `main` function.
pub fn check_entry(prog: &Program, file: &str) -> (r: Result<(), CompileError>)
    ensures
        match r {
            Ok(()) => has_top_spec(prog.items@) != has_main_spec(prog.items@),
            Err(e) => {
                &&& e.span is None
                &&& e.file@ == file@
                &&& if has_top_spec(prog.items@) {
                    has_main_spec(prog.items@) && e.message@
                        == "the entry point is the top-level code; remove 'fn main'"@
                } else {
                    !has_main_spec(prog.items@) && e.message@
                        == "no top-level statements or 'fn main' function found"@
                }
            },
        },
{
    let has_top = has_top_level(prog);
    let has_main = prog.has_main();
    if has_top {
        if has_main {
            return Err(
                CompileError::new("the entry point is the top-level code; remove 'fn main'", file),
            );
        }
    } else if !has_main {
        return Err(CompileError::new("no top-level statements or 'fn main' function found", file));
    }
    Ok(())
}

/// The imports among viewed items, in order.
pub open spec fn imports_of_items(items: Seq<ItemV>) -> Seq<ImportV>
    decreases items.len(),
{
    if items.len() == 0 {
        Seq::empty()
    } else {
        let rest = imports_of_items(items.drop_last());
        match items.last() {
            ItemV::Import(i) => rest.push(i),
            _ => rest,
        }
    }
}

/// The program's imports, in order.
pub fn imports_of(prog: &Program) -> (v: Vec<Import>)
    ensures
        v@.len() == imports_of_items(prog@.items).len(),
        forall|k: int|
            0 <= k < v@.len() ==> (ImportV { name: #[trigger] v@[k].name@, span: v@[k].span })
                == imports_of_items(prog@.items)[k],
{
    let ghost iv = prog@.items;
    let mut out: Vec<Import> = Vec::new();
    let mut k: usize = 0;
    while k < prog.items.len()
        invariant
            k <= prog.items@.len(),
            iv == prog@.items,
            iv.len() == prog.items@.len(),
            out@.len() == imports_of_items(iv.take(k as int)).len(),
            forall|j: int|
                0 <= j < out@.len() ==> (ImportV { name: #[trigger] out@[j].name@, span: out@[j].span })
                    == imports_of_items(iv.take(k as int))[j],
        decreases prog.items@.len() - k,
    {
        proof {
            assert(iv.take(k + 1).drop_last() =~= iv.take(k as int));
            assert(iv.take(k + 1).last() == iv[k as int]);
        }
        if let Item::Import(imp) = &prog.items[k] {
            out.push(Import { name: imp.name.clone(), span: imp.span });
        }
        k = k + 1;
    }
    proof {
        assert(iv.take(iv.len() as int) =~= iv);
    }
    out
}

} // verus!
