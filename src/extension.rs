//! The extension of a file name, taken from the raw bytes of the name.

use vstd::prelude::*;

verus! {

/// The byte `.` that separates a file name's stem from its extension.
pub const DOT: u8 = 0x2e;

/// Position of the last dot among the first `end` bytes of `name`, or -1.
pub open spec fn last_dot_before(name: Seq<u8>, end: int) -> int
    decreases end,
{
    if end <= 0 {
        -1
    } else if name[end - 1] == DOT {
        end - 1
    } else {
        last_dot_before(name, end - 1)
    }
}

/// The extension of a file name: what follows its last dot, where that dot
/// is not the first byte of the name. A name with no dot, or whose only dot
/// leads it (`.hidden`), has none.
pub open spec fn spec_extension(name: Seq<u8>) -> Option<Seq<u8>> {
    let i = last_dot_before(name, name.len() as int);
    if i <= 0 {
        None
    } else {
        Some(name.subrange(i + 1, name.len() as int))
    }
}

/// True when no byte of `s` is a dot.
pub open spec fn dot_free(s: Seq<u8>) -> bool {
    forall|i: int| 0 <= i < s.len() ==> s[i] != DOT
}

proof fn lemma_last_dot_bounds(name: Seq<u8>, end: int)
    requires
        0 <= end <= name.len(),
    ensures
        -1 <= last_dot_before(name, end) < end,
        last_dot_before(name, end) >= 0 ==> name[last_dot_before(name, end)] == DOT,
        forall|j: int|
            last_dot_before(name, end) < j < end ==> #[trigger] name[j] != DOT,
    decreases end,
{
    if end > 0 && name[end - 1] != DOT {
        lemma_last_dot_bounds(name, end - 1);
    }
}

proof fn lemma_last_dot_of_dot_free_tail(name: Seq<u8>, k: int, end: int)
    requires
        0 <= k < end <= name.len(),
        name[k] == DOT,
        forall|j: int| k < j < end ==> #[trigger] name[j] != DOT,
    ensures
        last_dot_before(name, end) == k,
    decreases end,
{
    if end - 1 != k {
        lemma_last_dot_of_dot_free_tail(name, k, end - 1);
    }
}

/// A name made of a non-empty stem, a dot and a dot-free tail has that tail
/// as its extension, whatever dots the stem holds.
pub proof fn lemma_extension_of_split(stem: Seq<u8>, ext: Seq<u8>)
    requires
        stem.len() > 0,
        dot_free(ext),
    ensures
        spec_extension(stem + seq![DOT] + ext) == Some(ext),
{
    let name = stem + seq![DOT] + ext;
    let k = stem.len() as int;
    assert(name[k] == DOT);
    assert forall|j: int| k < j < name.len() implies #[trigger] name[j] != DOT by {
        assert(name[j] == ext[j - k - 1]);
    }
    lemma_last_dot_of_dot_free_tail(name, k, name.len() as int);
    assert(name.subrange(k + 1, name.len() as int) =~= ext);
}

/// A name with no dot after its first byte has no extension.
pub proof fn lemma_no_extension(name: Seq<u8>)
    requires
        forall|i: int| 0 < i < name.len() ==> name[i] != DOT,
    ensures
        spec_extension(name) is None,
{
    lemma_last_dot_bounds(name, name.len() as int);
}

/// The extension of the file name `name`, as `spec_extension` defines it.
pub fn extension_of(name: &[u8]) -> (r: Option<Vec<u8>>)
    ensures
        match r {
            Some(e) => spec_extension(name@) == Some(e@),
            None => spec_extension(name@) is None,
        },
{
    let n = name.len();
    let mut end: usize = n;
    while end > 0 && name[end - 1] != DOT
        invariant
            end <= n,
            n == name@.len(),
            last_dot_before(name@, end as int) == last_dot_before(name@, n as int),
        decreases end,
    {
        end = end - 1;
    }
    // Here `end` is one past the last dot, or 0 when there is none.
    if end <= 1 {
        return None;
    }
    let mut ext: Vec<u8> = Vec::new();
    let mut i: usize = end;
    while i < n
        invariant
            1 < end <= i <= n,
            n == name@.len(),
            ext@ == name@.subrange(end as int, i as int),
        decreases n - i,
    {
        ext.push(name[i]);
        i = i + 1;
        assert(ext@ =~= name@.subrange(end as int, i as int));
    }
    Some(ext)
}

} // verus!
