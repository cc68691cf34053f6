//! File name extensions as the keys of the statistics by file type.

use vstd::prelude::*;
use vstd::string::{StrSliceExecFns, StringExecFns};
use vstd::utf8::encode_utf8;

verus! {

/// The lowercase form of a text.
pub uninterp spec fn lowercased(text: Seq<char>) -> Seq<char>;

/// `str::to_lowercase` returns the lowercase equivalent of the text by the
/// rules of Unicode, which depends on the text alone; the contract gives that
/// result its name and claims nothing more of it.
#[verifier::external_body]
fn lowercase(text: &str) -> (lower: String)
    ensures
        lower@ == lowercased(text@),
{
    text.to_lowercase()
}

/// Position of the last dot before position `upto`, or `-1` if there is none.
pub open spec fn last_dot(name: Seq<char>, upto: int) -> int
    decreases upto,
{
    if upto <= 0 {
        -1
    } else if name[upto - 1] == '.' {
        upto - 1
    } else {
        last_dot(name, upto - 1)
    }
}

/// The label of the files that have no extension.
pub open spec fn no_extension() -> Seq<char> {
    seq!['(', 'n', 'o', ' ', 'e', 'x', 't', ')']
}

/// What `extension_label` returns.
pub open spec fn extension_label_spec(name: Seq<char>) -> Seq<char> {
    let dot = last_dot(name, name.len() as int);
    if dot < 0 {
        no_extension()
    } else {
        let ext = name.subrange(dot + 1, name.len() as int);
        if encode_utf8(ext).len() < 10 {
            seq!['.'] + lowercased(ext)
        } else {
            no_extension()
        }
    }
}

/// The label under which a file counts in the statistics by type: a dot and
/// what follows the last dot of its name, in lower case. A name without a
/// dot, or with ten bytes or more after the last dot, counts as having no
/// extension.
pub fn extension_label(name: &str) -> (label: String)
    ensures
        label@ == extension_label_spec(name@),
{
    proof {
        reveal_strlit("(no ext)");
        reveal_strlit(".");
    }
    let n: usize = name.unicode_len();
    let mut i: usize = n;
    while i > 0 && name.get_char(i - 1) != '.'
        invariant
            i <= n,
            n == name@.len(),
            last_dot(name@, i as int) == last_dot(name@, n as int),
        decreases i,
    {
        i = i - 1;
    }
    if i == 0 {
        let label: String = String::from_str("(no ext)");
        assert(label@ =~= no_extension());
        return label;
    }
    let ext: &str = name.substring_char(i, n);
    if ext.as_bytes().len() < 10 {
        let lower: String = lowercase(ext);
        let mut label: String = String::from_str(".");
        label.append(lower.as_str());
        assert(label@ =~= seq!['.'] + lowercased(ext@));
        label
    } else {
        let label: String = String::from_str("(no ext)");
        assert(label@ =~= no_extension());
        label
    }
}

} // verus!
