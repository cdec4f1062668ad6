//! Telling stamp files from documents by their file name.
use vstd::prelude::*;
use vstd::string::StringSliceAdditionalSpecFns;

verus! {

/// The extension that marks a file as a stamp.
pub const STAMP_SUFFIX: &'static str = "notary_stamp";

/// What kind of input a file is, going by its name.
#[derive(Clone, Copy, Debug, PartialEq, Eq, Structural)]
pub enum FileKind {
    Document,
    Stamp,
}

/// The byte that separates a file name from its extension.
pub open spec fn dot() -> u8 {
    0x2eu8
}

/// The bytes of the stamp extension.
pub open spec fn stamp_suffix_bytes() -> Seq<u8> {
    seq![
        0x6eu8, 0x6fu8, 0x74u8, 0x61u8, 0x72u8, 0x79u8, 0x5fu8,
        0x73u8, 0x74u8, 0x61u8, 0x6du8, 0x70u8,
    ]
}

/// What follows the last dot of `s`, or all of `s` when it holds no dot.
pub open spec fn last_segment(s: Seq<u8>) -> Seq<u8>
    decreases s.len(),
{
    if s.len() == 0 {
        s
    } else if s.last() == dot() {
        Seq::empty()
    } else {
        last_segment(s.drop_last()).push(s.last())
    }
}

/// The kind that a file with the name bytes `name` has.
pub open spec fn kind_of(name: Seq<u8>) -> FileKind {
    if last_segment(name) == stamp_suffix_bytes() {
        FileKind::Stamp
    } else {
        FileKind::Document
    }
}

proof fn lemma_last_segment_after(s: Seq<u8>, k: int)
    requires
        0 <= k <= s.len(),
        k == 0 || s[k - 1] == dot(),
        forall|j: int| k <= j < s.len() ==> s[j] != dot(),
    ensures
        last_segment(s) == s.subrange(k, s.len() as int),
    decreases s.len(),
{
    if s.len() == 0 {
        assert(s.subrange(k, 0) =~= s);
    } else if s.last() == dot() {
        assert(k == s.len());
        assert(s.subrange(k, s.len() as int) =~= Seq::<u8>::empty());
    } else {
        lemma_last_segment_after(s.drop_last(), k);
        assert(s.drop_last().subrange(k, s.len() - 1).push(s.last()) =~= s.subrange(
            k,
            s.len() as int,
        ));
    }
}

/// Whether the file named `name` is a stamp: its extension, the text after the
/// last dot, is the stamp extension. Every other file is a document.
pub fn classify_file(name: &str) -> (r: FileKind)
    ensures
        r == kind_of(name.spec_bytes()),
{
    let b = name.as_bytes();
    let n = b.len();
    let mut k: usize = n;
    while k > 0 && b[k - 1] != 0x2eu8
        invariant
            b@ == name.spec_bytes(),
            n == b@.len(),
            k <= n,
            forall|j: int| k <= j < n ==> b@[j] != dot(),
        decreases k,
    {
        k = k - 1;
    }
    proof {
        lemma_last_segment_after(b@, k as int);
    }
    let suffix: [u8; 12] = [
        0x6eu8, 0x6fu8, 0x74u8, 0x61u8, 0x72u8, 0x79u8, 0x5fu8,
        0x73u8, 0x74u8, 0x61u8, 0x6du8, 0x70u8,
    ];
    assert(suffix@ =~= stamp_suffix_bytes());
    if n - k != suffix.len() {
        assert(b@.subrange(k as int, n as int).len() != stamp_suffix_bytes().len());
        return FileKind::Document;
    }
    let mut i: usize = 0;
    while i < suffix.len()
        invariant
            b@ == name.spec_bytes(),
            n == b@.len(),
            k <= n,
            n - k == suffix@.len(),
            suffix@ == stamp_suffix_bytes(),
            last_segment(b@) == b@.subrange(k as int, n as int),
            i <= suffix@.len(),
            forall|j: int| 0 <= j < i ==> b@[k + j] == suffix@[j],
        decreases suffix@.len() - i,
    {
        if b[k + i] != suffix[i] {
            assert(b@.subrange(k as int, n as int)[i as int] != stamp_suffix_bytes()[i as int]);
            return FileKind::Document;
        }
        i = i + 1;
    }
    assert(b@.subrange(k as int, n as int) =~= stamp_suffix_bytes());
    FileKind::Stamp
}

} // verus!
