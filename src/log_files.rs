use vstd::prelude::*;
use vstd::utf8::encode_utf8;
use crate::text::str_eq;

verus! {

/// Relies on `str::ends_with` with a `&str` pattern: whether `s` ends with
/// `suffix`.
#[verifier::external_body]
fn ends_with(s: &str, suffix: &str) -> (r: bool)
    ensures
        r == (suffix@.len() <= s@.len() && s@.subrange(s@.len() - suffix@.len(), s@.len() as int)
            == suffix@),
{
    s.ends_with(suffix)
}

/// Byte-wise lexicographic order, the order of `str`.
pub open spec fn bytes_le(a: Seq<u8>, b: Seq<u8>) -> bool
    decreases a.len(),
{
    if a.len() == 0 {
        true
    } else if b.len() == 0 {
        false
    } else if a[0] != b[0] {
        a[0] < b[0]
    } else {
        bytes_le(a.drop_first(), b.drop_first())
    }
}

/// The names are in ascending order.
pub open spec fn sorted_names(v: Seq<String>) -> bool {
    forall|i: int, j: int|
        0 <= i < j < v.len() ==> bytes_le(encode_utf8(#[trigger] v[i]@), encode_utf8(#[trigger] v[j]@))
}

/// Relies on `slice::sort` and `String`'s `Ord`, which compares the bytes
/// lexicographically: the same names, in ascending order.
#[verifier::external_body]
fn sort_names(v: &mut Vec<String>)
    ensures
        final(v)@.to_multiset() == old(v)@.to_multiset(),
        sorted_names(final(v)@),
{
    v.sort();
}

/// A file name whose extension is `log`: it ends in ".log" after a
/// non-empty stem.
pub open spec fn is_log_name(name: Seq<char>) -> bool {
    &&& name.len() > 4
    &&& name.subrange(name.len() - 4, name.len() as int) == ".log"@
}

/// The log file names among `names`, in their order.
pub open spec fn log_names(names: Seq<String>) -> Seq<String>
    decreases names.len(),
{
    if names.len() == 0 {
        Seq::empty()
    } else {
        let kept = log_names(names.drop_last());
        if is_log_name(names.last()@) {
            kept.push(names.last())
        } else {
            kept
        }
    }
}

/// Whether `name` is the name of a log file.
pub fn is_log_file_name(name: &str) -> (r: bool)
    ensures
        r == is_log_name(name@),
{
    proof {
        reveal_strlit(".log");
    }
    let r = ends_with(name, ".log") && !str_eq(name, ".log");
    proof {
        if name@.len() == 4 && name@.subrange(0, 4) == ".log"@ {
            assert(name@ == name@.subrange(0, 4));
        }
    }
    r
}

/// The names of the log files among the file names of a directory, in
/// ascending order.
pub fn select_log_files(names: Vec<String>) -> (r: Vec<String>)
    ensures
        r@.to_multiset() == log_names(names@).to_multiset(),
        sorted_names(r@),
{
    let mut r: Vec<String> = Vec::new();
    let mut i: usize = 0;
    while i < names.len()
        invariant
            i <= names@.len(),
            r@ == log_names(names@.subrange(0, i as int)),
        decreases names@.len() - i,
    {
        assert(names@.subrange(0, i as int + 1).drop_last() == names@.subrange(0, i as int));
        if is_log_file_name(names[i].as_str()) {
            r.push(names[i].clone());
        }
        i += 1;
    }
    assert(names@.subrange(0, i as int) == names@);
    sort_names(&mut r);
    r
}

} // verus!
