//! Byte strings: prefixes, occurrences and removal of a sequence.
use crate::sequences;
use vstd::prelude::*;

verus! {

/// The bytes of an ASCII text.
pub open spec fn ascii(text: Seq<char>) -> Seq<u8> {
    text.map_values(|ch: char| ch as u8)
}

/// The bytes of an ASCII text.
pub fn ascii_bytes(text: &str) -> (r: Vec<u8>)
    ensures
        r@ == ascii(text@),
{
    let mut r: Vec<u8> = Vec::new();
    for ch in it: text.chars()
        invariant
            r@ == ascii(it.seq().take(it.index() as int)),
            it.seq() == text@,
    {
        r.push(ch as u8);
        assert(r@ =~= ascii(it.seq().take(it.index() + 1)));
    }
    assert(text@.take(text@.len() as int) =~= text@);
    r
}

/// The contents of a list of byte strings.
pub open spec fn contents(list: Seq<Vec<u8>>) -> Seq<Seq<u8>> {
    list.map_values(|item: Vec<u8>| item@)
}

/// Whether `needle` stands in `hay` at position `at`.
pub open spec fn stands_at(hay: Seq<u8>, needle: Seq<u8>, at: int) -> bool {
    0 <= at && at + needle.len() <= hay.len() && hay.subrange(at, at + needle.len()) == needle
}

/// Whether `needle` stands anywhere in `hay`.
pub open spec fn occurs(hay: Seq<u8>, needle: Seq<u8>) -> bool {
    exists|at: int| stands_at(hay, needle, at)
}

/// Whether `needle` stands in `hay` at position `at`.
pub fn is_at(hay: &[u8], needle: &[u8], at: usize) -> (r: bool)
    ensures
        r == stands_at(hay@, needle@, at as int),
{
    let len: usize = hay.len();
    if at > len || needle.len() > len - at {
        return false;
    }
    let mut i: usize = 0;
    while i < needle.len()
        invariant
            i <= needle@.len(),
            len == hay@.len(),
            at + needle@.len() <= len,
            forall|j: int| 0 <= j < i ==> hay@[at + j] == needle@[j],
        decreases needle@.len() - i,
    {
        if hay[at + i] != needle[i] {
            proof {
                let cut = hay@.subrange(at as int, at + needle@.len());
                assert(cut[i as int] == hay@[at + i]);
            }
            return false;
        }
        i = i + 1;
    }
    assert(hay@.subrange(at as int, at + needle@.len()) =~= needle@);
    true
}

/// Whether `needle` stands anywhere in `hay`.
pub fn has(hay: &[u8], needle: &[u8]) -> (r: bool)
    ensures
        r == occurs(hay@, needle@),
{
    let mut at: usize = 0;
    while at < hay.len()
        invariant
            at <= hay@.len(),
            forall|j: int| 0 <= j < at ==> !stands_at(hay@, needle@, j),
        decreases hay@.len() - at,
    {
        if is_at(hay, needle, at) {
            return true;
        }
        at = at + 1;
    }
    let last: bool = is_at(hay, needle, at);
    assert(forall|j: int| #[trigger] stands_at(hay@, needle@, j) ==> j <= hay@.len());
    last
}

/// Whether `bytes` starts with `prefix`.
pub open spec fn starts(bytes: Seq<u8>, prefix: Seq<u8>) -> bool {
    stands_at(bytes, prefix, 0)
}

/// The bytes of a slice from `from` to the one before `to`.
pub fn part(bytes: &[u8], from: usize, to: usize) -> (r: Vec<u8>)
    requires
        from <= to <= bytes@.len(),
    ensures
        r@ == bytes@.subrange(from as int, to as int),
{
    let mut r: Vec<u8> = Vec::new();
    append(&mut r, bytes, from, to);
    r
}

/// Appends the bytes of a slice from `from` to the one before `to`.
pub fn append(out: &mut Vec<u8>, bytes: &[u8], from: usize, to: usize)
    requires
        from <= to <= bytes@.len(),
    ensures
        final(out)@ == old(out)@ + bytes@.subrange(from as int, to as int),
{
    let mut i: usize = from;
    while i < to
        invariant
            from <= i <= to <= bytes@.len(),
            out@ == old(out)@ + bytes@.subrange(from as int, i as int),
        decreases to - i,
    {
        out.push(bytes[i]);
        i = i + 1;
        assert(out@ =~= old(out)@ + bytes@.subrange(from as int, i as int));
    }
}

/// Appends all bytes of a slice.
pub fn append_all(out: &mut Vec<u8>, bytes: &[u8])
    ensures
        final(out)@ == old(out)@ + bytes@,
{
    append(out, bytes, 0, bytes.len());
    assert(bytes@.subrange(0, bytes@.len() as int) =~= bytes@);
}

/// `bytes` without the occurrences of `needle`, taken from left to right without overlap.
pub open spec fn without(bytes: Seq<u8>, needle: Seq<u8>) -> Seq<u8>
    decreases bytes.len(),
{
    if needle.len() == 0 || bytes.len() == 0 {
        bytes
    } else if starts(bytes, needle) {
        without(bytes.skip(needle.len() as int), needle)
    } else {
        seq![bytes[0]] + without(bytes.skip(1), needle)
    }
}

/// Removes the occurrences of `needle`, taken from left to right without overlap.
pub fn strip_byte_sequence(bytes: &[u8], needle: &[u8]) -> (r: Vec<u8>)
    ensures
        r@ == without(bytes@, needle@),
{
    let mut out: Vec<u8> = Vec::new();
    if needle.len() == 0 {
        append_all(&mut out, bytes);
        assert(out@ =~= bytes@);
        return out;
    }
    let mut i: usize = 0;
    assert(bytes@.skip(0) =~= bytes@);
    assert(Seq::<u8>::empty() + without(bytes@, needle@) =~= without(bytes@, needle@));
    while i < bytes.len()
        invariant
            i <= bytes@.len(),
            needle@.len() > 0,
            out@ + without(bytes@.skip(i as int), needle@) == without(bytes@, needle@),
        decreases bytes@.len() - i,
    {
        let ghost rest = bytes@.skip(i as int);
        let ghost done = out@;
        proof {
            lemma_stands_in_rest(bytes@, needle@, i as int);
        }
        if is_at(bytes, needle, i) {
            assert(rest.skip(needle@.len() as int) =~= bytes@.skip(i + needle@.len()));
            i = i + needle.len();
        } else {
            assert(rest.skip(1) =~= bytes@.skip(i + 1));
            out.push(bytes[i]);
            i = i + 1;
            assert(done + (seq![rest[0]] + without(bytes@.skip(i as int), needle@)) =~= out@
                + without(bytes@.skip(i as int), needle@));
        }
    }
    assert(bytes@.skip(i as int) =~= Seq::<u8>::empty());
    assert(out@ + Seq::<u8>::empty() =~= out@);
    out
}

/// A sequence that stands in `bytes` at `at` starts what is left from there.
pub proof fn lemma_stands_in_rest(bytes: Seq<u8>, needle: Seq<u8>, at: int)
    requires
        0 <= at <= bytes.len(),
    ensures
        stands_at(bytes, needle, at) == starts(bytes.skip(at), needle),
{
    if at + needle.len() <= bytes.len() {
        assert(bytes.skip(at).subrange(0, needle.len() as int) =~= bytes.subrange(
            at,
            at + needle.len(),
        ));
    }
}

/// Where a sequence does not occur, its removal changes nothing.
pub proof fn lemma_without_absent(bytes: Seq<u8>, needle: Seq<u8>)
    requires
        !occurs(bytes, needle),
    ensures
        without(bytes, needle) == bytes,
    decreases bytes.len(),
{
    if needle.len() > 0 && bytes.len() > 0 {
        assert(!stands_at(bytes, needle, 0));
        let rest = bytes.skip(1);
        assert forall|at: int| !stands_at(rest, needle, at) by {
            if stands_at(rest, needle, at) {
                assert(rest.subrange(at, at + needle.len()) =~= bytes.subrange(
                    at + 1,
                    at + 1 + needle.len(),
                ));
                assert(stands_at(bytes, needle, at + 1));
            }
        }
        lemma_without_absent(rest, needle);
        assert(seq![bytes[0]] + rest =~= bytes);
    }
}

/// A removal leaves a subsequence, which is shorter where there was something to remove.
pub proof fn lemma_without_part(bytes: Seq<u8>, needle: Seq<u8>)
    ensures
        sequences::subsequence(without(bytes, needle), bytes),
        without(bytes, needle).len() <= bytes.len(),
        needle.len() > 0 && occurs(bytes, needle) ==> without(bytes, needle).len() < bytes.len(),
    decreases bytes.len(),
{
    if needle.len() == 0 || bytes.len() == 0 {
        sequences::lemma_whole(bytes);
    } else if starts(bytes, needle) {
        let n = needle.len() as int;
        lemma_without_part(bytes.skip(n), needle);
        sequences::lemma_left_out(without(bytes, needle), bytes, n);
    } else {
        let rest = bytes.skip(1);
        lemma_without_part(rest, needle);
        sequences::lemma_taken_in(without(rest, needle), bytes);
        if occurs(bytes, needle) {
            let at = choose|at: int| stands_at(bytes, needle, at);
            assert(at != 0);
            assert(rest.subrange(at - 1, at - 1 + needle.len()) =~= bytes.subrange(
                at,
                at + needle.len(),
            ));
            assert(stands_at(rest, needle, at - 1));
        }
    }
}

} // verus!
