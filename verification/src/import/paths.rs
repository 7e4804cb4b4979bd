//! The file names an `import` of a header file may refer to.

use vstd::prelude::*;

use crate::text::push_str;

verus! {

/// A header name of one plain path component: no separator (`/`, `\`), no
/// drive prefix (`:`) and not `..`.
pub open spec fn plain_name(name: Seq<char>) -> bool {
    &&& !name.contains('/')
    &&& !name.contains('\\')
    &&& !name.contains(':')
    &&& name != ".."@
}

/// A `.` somewhere after the first character: what makes a plain name's
/// extension (the part after its last `.`) exist.
pub open spec fn dotted(name: Seq<char>) -> bool {
    exists|k: int| 1 <= k < name.len() && name[k] == '.'
}

/// Calls `Path::extension` on `name` and tells whether there is one. Its
/// documentation: there is none without a file name, none without an
/// embedded `.`, and none when the file name begins with `.` and has no
/// other `.`; otherwise there is one. For a plain name the file name is the
/// name itself (none for `.`), so it has an extension exactly when it has a
/// `.` after its first character. Names with separators are left unsaid:
/// which characters separate depends on the platform.
#[verifier::external_body]
fn path_has_extension(name: &str) -> (r: bool)
    ensures
        !name@.contains('.') ==> !r,
        plain_name(name@) ==> (r <==> dotted(name@)),
{
    std::path::Path::new(name).extension().is_some()
}

/// The names to try, in order, for a header named `name`: the name as
/// written, and, when it has no extension, the name with `.zh`, `.zero`
/// and `.rs` appended.
pub open spec fn candidate_names_spec(name: Seq<char>, has_ext: bool) -> Seq<Seq<char>> {
    if has_ext {
        seq![name]
    } else {
        seq![name, name + ".zh"@, name + ".zero"@, name + ".rs"@]
    }
}

/// The names to try for a header named `name`, given whether the name has
/// an extension.
pub fn candidate_names(name: &str, has_ext: bool) -> (v: Vec<String>)
    ensures
        v@.len() == candidate_names_spec(name@, has_ext).len(),
        forall|k: int| 0 <= k < v@.len() ==> #[trigger] v@[k]@ == candidate_names_spec(name@, has_ext)[k],
{
    let mut v: Vec<String> = Vec::new();
    v.push(name.to_owned());
    if !has_ext {
        let exts = [".zh", ".zero", ".rs"];
        let mut k: usize = 0;
        while k < 3
            invariant
                0 <= k <= 3,
                exts@ == seq![".zh", ".zero", ".rs"],
                v@.len() == k + 1,
                v@[0]@ == name@,
                forall|j: int| 1 <= j <= k ==> #[trigger] v@[j]@ == name@ + exts@[j - 1]@,
            decreases 3 - k,
        {
            let mut c = name.to_owned();
            push_str(&mut c, exts[k]);
            v.push(c);
            k = k + 1;
        }
        proof {
            reveal_strlit(".zh");
            reveal_strlit(".zero");
            reveal_strlit(".rs");
        }
    }
    v
}

/// The names to try for a header named `name`, relative to the directory
/// of the importing file.
pub fn candidates(name: &str) -> (v: Vec<String>)
    ensures
        exists|has_ext: bool|
            {
                &&& (!name@.contains('.') ==> !has_ext)
                &&& (plain_name(name@) ==> (has_ext <==> dotted(name@)))
                &&& v@.len() == candidate_names_spec(name@, has_ext).len()
                &&& forall|k: int|
                    0 <= k < v@.len() ==> #[trigger] v@[k]@ == candidate_names_spec(name@, has_ext)[k]
            },
{
    let has_ext = path_has_extension(name);
    candidate_names(name, has_ext)
}

} // verus!
