use vstd::prelude::*;
use vstd::utf8::valid_utf8;

verus! {

pub const SPACE: u8 = 32;

pub const COLON: u8 = 58;

pub const SLASH: u8 = 47;

pub const CR: u8 = 13;

pub const LF: u8 = 10;

/// Index of the first `b` in `s`, or `s.len()` when `s` holds none.
pub open spec fn first_index(s: Seq<u8>, b: u8) -> nat
    decreases s.len(),
{
    if s.len() == 0 {
        0
    } else if s[0] == b {
        0
    } else {
        1 + first_index(s.drop_first(), b)
    }
}

/// Index of the first `": "` in `s`, or `s.len()` when `s` holds none.
pub open spec fn first_colon_space(s: Seq<u8>) -> nat
    decreases s.len(),
{
    if s.len() < 2 {
        s.len()
    } else if s[0] == COLON && s[1] == SPACE {
        0
    } else {
        1 + first_colon_space(s.drop_first())
    }
}

pub open spec fn crlf() -> Seq<u8> {
    seq![CR, LF]
}

/// `s` without its final `"\r\n"`, or `None` when it does not end so.
pub open spec fn strip_crlf(s: Seq<u8>) -> Option<Seq<u8>> {
    if s.len() >= 2 && s[s.len() - 2] == CR && s[s.len() - 1] == LF {
        Some(s.take(s.len() - 2))
    } else {
        None
    }
}

pub proof fn lemma_first_index_bounds(s: Seq<u8>, b: u8)
    ensures
        first_index(s, b) <= s.len(),
        first_index(s, b) < s.len() ==> s[first_index(s, b) as int] == b,
        forall|k: int| 0 <= k < first_index(s, b) ==> s[k] != b,
    decreases s.len(),
{
    if s.len() > 0 && s[0] != b {
        lemma_first_index_bounds(s.drop_first(), b);
        assert forall|k: int| 0 <= k < first_index(s, b) implies s[k] != b by {
            if k > 0 {
                assert(s[k] == s.drop_first()[k - 1]);
            }
        }
    }
}

pub proof fn lemma_first_colon_space_bounds(s: Seq<u8>)
    ensures
        first_colon_space(s) <= s.len(),
        first_colon_space(s) < s.len() ==> first_colon_space(s) + 2 <= s.len() && s[first_colon_space(s) as int] == COLON
            && s[first_colon_space(s) + 1int] == SPACE,
    decreases s.len(),
{
    if s.len() >= 2 && !(s[0] == COLON && s[1] == SPACE) {
        lemma_first_colon_space_bounds(s.drop_first());
    }
}

/// `first_index` is `n` when `s[n]` is the first `b`.
pub proof fn lemma_first_index_at(s: Seq<u8>, b: u8, n: int)
    requires
        0 <= n < s.len(),
        s[n] == b,
        forall|k: int| 0 <= k < n ==> s[k] != b,
    ensures
        first_index(s, b) == n,
    decreases n,
{
    if n > 0 {
        assert forall|k: int| 0 <= k < n - 1 implies s.drop_first()[k] != b by {
            assert(s.drop_first()[k] == s[k + 1]);
        }
        lemma_first_index_at(s.drop_first(), b, n - 1);
    }
}

pub open spec fn has_prefix(s: Seq<u8>, p: Seq<u8>) -> bool {
    p.len() <= s.len() && s.take(p.len() as int) == p
}

/// True when `s` begins with `p`.
pub fn starts_with(s: &[u8], p: &[u8]) -> (r: bool)
    ensures
        r == has_prefix(s@, p@),
{
    if p.len() > s.len() {
        return false;
    }
    let head = copy_range(s, 0, p.len());
    assert(head@ == s@.take(p@.len() as int));
    bytes_eq(head.as_slice(), p)
}

/// True when `a` and `b` hold the same bytes.
pub fn bytes_eq(a: &[u8], b: &[u8]) -> (r: bool)
    ensures
        r == (a@ == b@),
{
    if a.len() != b.len() {
        return false;
    }
    let mut i: usize = 0;
    while i < a.len()
        invariant
            a@.len() == b@.len(),
            i <= a@.len(),
            a@.subrange(0, i as int) == b@.subrange(0, i as int),
        decreases a@.len() - i,
    {
        if a[i] != b[i] {
            assert(a@[i as int] != b@[i as int]);
            return false;
        }
        assert(a@.subrange(0, i + 1) == a@.subrange(0, i as int).push(a@[i as int]));
        assert(b@.subrange(0, i + 1) == b@.subrange(0, i as int).push(b@[i as int]));
        i = i + 1;
    }
    assert(a@ == a@.subrange(0, a@.len() as int));
    assert(b@ == b@.subrange(0, b@.len() as int));
    true
}

/// Position of the first `b` in `s` at or after `from`, or `s.len()`.
pub fn find_byte(s: &[u8], from: usize, b: u8) -> (r: usize)
    requires
        from <= s@.len(),
    ensures
        r == from + first_index(s@.skip(from as int), b),
{
    let mut i: usize = from;
    while i < s.len()
        invariant
            from <= i <= s@.len(),
            first_index(s@.skip(from as int), b) == (i - from) + first_index(s@.skip(i as int), b),
        decreases s@.len() - i,
    {
        if s[i] == b {
            return i;
        }
        assert(s@.skip(i as int).drop_first() == s@.skip(i + 1));
        i = i + 1;
    }
    i
}

/// Position of the first `": "` in `s`, or `s.len()`.
pub fn find_colon_space(s: &[u8]) -> (r: usize)
    ensures
        r == first_colon_space(s@),
{
    let mut i: usize = 0;
    assert(s@.skip(0) == s@);
    while s.len() - i > 1
        invariant
            i <= s@.len(),
            first_colon_space(s@) == i + first_colon_space(s@.skip(i as int)),
        decreases s@.len() - i,
    {
        if s[i] == COLON && s[i + 1] == SPACE {
            return i;
        }
        assert(s@.skip(i as int).drop_first() == s@.skip(i + 1));
        i = i + 1;
    }
    assert(s@.skip(i as int).len() < 2);
    s.len()
}

/// Copies `s[from..to]` into a new vector.
pub fn copy_range(s: &[u8], from: usize, to: usize) -> (r: Vec<u8>)
    requires
        from <= to <= s@.len(),
    ensures
        r@ == s@.subrange(from as int, to as int),
{
    let mut r: Vec<u8> = Vec::new();
    let mut i: usize = from;
    while i < to
        invariant
            from <= i <= to <= s@.len(),
            r@ == s@.subrange(from as int, i as int),
        decreases to - i,
    {
        r.push(s[i]);
        assert(s@.subrange(from as int, i + 1) == s@.subrange(from as int, i as int).push(s@[i as int]));
        i = i + 1;
    }
    r
}

/// Appends all of `s` to `out`.
pub fn append_bytes(out: &mut Vec<u8>, s: &[u8])
    ensures
        final(out)@ == old(out)@ + s@,
{
    let mut i: usize = 0;
    while i < s.len()
        invariant
            i <= s@.len(),
            out@ == old(out)@ + s@.subrange(0, i as int),
        decreases s@.len() - i,
    {
        out.push(s[i]);
        assert(s@.subrange(0, i + 1) == s@.subrange(0, i as int).push(s@[i as int]));
        i = i + 1;
    }
    assert(s@.subrange(0, s@.len() as int) == s@);
}

/// Relies on std::str::from_utf8: it succeeds exactly on well-formed UTF-8.
#[verifier::external_body]
pub(crate) fn is_utf8(b: &[u8]) -> (r: bool)
    ensures
        r == valid_utf8(b@),
{
    std::str::from_utf8(b).is_ok()
}

} // verus!
