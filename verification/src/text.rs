//! Byte-level text helpers shared by the codec, the account store and the
//! command parser: searching for a delimiter, splitting, whitespace
//! tokenization, joining, and decimal formatting of identifiers.
use vstd::prelude::*;

verus! {

/// Index of the first occurrence of `d` in `s`, or `s.len()` if `d` does
/// not occur.
pub open spec fn spec_find(s: Seq<u8>, d: u8) -> int
    decreases s.len(),
{
    if s.len() == 0 || s[0] == d {
        0
    } else {
        1 + spec_find(s.drop_first(), d)
    }
}

/// `spec_find` lands in bounds, on `d` itself when `d` occurs, and
/// nothing before it is `d`.
pub proof fn lemma_find_bounds(s: Seq<u8>, d: u8)
    ensures
        0 <= spec_find(s, d) <= s.len(),
        forall|j: int| 0 <= j < spec_find(s, d) ==> s[j] != d,
        spec_find(s, d) < s.len() ==> s[spec_find(s, d)] == d,
    decreases s.len(),
{
    if s.len() != 0 && s[0] != d {
        lemma_find_bounds(s.drop_first(), d);
        assert forall|j: int| 0 <= j < spec_find(s, d) implies s[j] != d by {
            if j > 0 {
                assert(s.drop_first()[j - 1] != d);
            }
        }
    }
}

/// `spec_find` is pinned down by its characterization: any position whose
/// prefix is free of `d` and which either carries `d` or is the end.
pub proof fn lemma_find_is(s: Seq<u8>, d: u8, i: int)
    requires
        0 <= i <= s.len(),
        forall|j: int| 0 <= j < i ==> s[j] != d,
        i < s.len() ==> s[i] == d,
    ensures
        spec_find(s, d) == i,
    decreases i,
{
    if i == 0 {
    } else {
        lemma_find_is(s.drop_first(), d, i - 1);
    }
}

/// First index of `d` in `s`, or `s.len()` when `d` is absent.
pub fn find_byte(s: &Vec<u8>, d: u8) -> (r: usize)
    ensures
        r == spec_find(s@, d),
{
    let mut i: usize = 0;
    while i < s.len()
        invariant
            i <= s@.len(),
            forall|j: int| 0 <= j < i ==> s@[j] != d,
        decreases s@.len() - i,
    {
        if s[i] == d {
            proof {
                lemma_find_is(s@, d, i as int);
            }
            return i;
        }
        i += 1;
    }
    proof {
        lemma_find_is(s@, d, s@.len() as int);
    }
    i
}

/// True exactly when the two byte strings hold the same bytes.
pub fn bytes_eq(a: &Vec<u8>, b: &Vec<u8>) -> (r: bool)
    ensures
        r == (a@ == b@),
{
    if a.len() != b.len() {
        return false;
    }
    let mut i: usize = 0;
    while i < a.len()
        invariant
            a@.len() == b@.len(),
            i <= a@.len(),
            forall|j: int| 0 <= j < i ==> a@[j] == b@[j],
        decreases a@.len() - i,
    {
        if a[i] != b[i] {
            return false;
        }
        i += 1;
    }
    proof {
        assert(a@ =~= b@);
    }
    true
}

/// Copy of `s[from..to]`.
pub fn subvec(s: &Vec<u8>, from: usize, to: usize) -> (r: Vec<u8>)
    requires
        from <= to <= s@.len(),
    ensures
        r@ == s@.subrange(from as int, to as int),
{
    vstd::slice::slice_to_vec(vstd::slice::slice_subrange(s.as_slice(), from, to))
}

/// Copy of a whole byte string.
pub fn copy_bytes(s: &Vec<u8>) -> (r: Vec<u8>)
    ensures
        r@ == s@,
{
    let r = subvec(s, 0, s.len());
    proof {
        assert(s@.subrange(0, s@.len() as int) =~= s@);
    }
    r
}

/// Segments of `s` between occurrences of the delimiter `d`; splitting the
/// empty string gives one empty segment, like `str::split`.
pub open spec fn spec_split(s: Seq<u8>, d: u8) -> Seq<Seq<u8>>
    decreases s.len(),
{
    let k = spec_find(s, d);
    if 0 <= k < s.len() {
        seq![s.take(k)] + spec_split(s.skip(k + 1), d)
    } else {
        seq![s]
    }
}

/// Split `s` at every occurrence of `d`.
pub fn split_byte(s: &Vec<u8>, d: u8) -> (r: Vec<Vec<u8>>)
    ensures
        r.deep_view() == spec_split(s@, d),
{
    let mut r: Vec<Vec<u8>> = Vec::new();
    let mut start: usize = 0;
    let mut i: usize = 0;
    proof {
        assert(s@.skip(0) =~= s@);
        assert(r.deep_view() + spec_split(s@, d) =~= spec_split(s@, d));
    }
    loop
        invariant_except_break
            r.deep_view() + spec_split(s@.skip(start as int), d) == spec_split(s@, d),
        invariant
            start <= i <= s@.len(),
            forall|j: int| start <= j < i ==> s@[j] != d,
        ensures
            r.deep_view() == spec_split(s@, d),
        decreases s@.len() - i,
    {
        if i == s.len() {
            let seg = subvec(s, start, i);
            let ghost prev = r.deep_view();
            let ghost rest = s@.skip(start as int);
            proof {
                lemma_find_is(rest, d, rest.len() as int);
                assert(seg@ =~= rest);
            }
            r.push(seg);
            proof {
                assert(r.deep_view() =~~= prev + seq![rest]);
            }
            break;
        }
        if s[i] == d {
            let seg = subvec(s, start, i);
            let ghost prev = r.deep_view();
            let ghost rest = s@.skip(start as int);
            proof {
                lemma_find_is(rest, d, i - start);
                assert(seg@ =~= rest.take(i - start));
                assert(rest.skip(i - start + 1) =~= s@.skip(i + 1));
            }
            r.push(seg);
            proof {
                assert(r.deep_view() =~~= prev.push(seg@));
                assert(r.deep_view() + spec_split(s@.skip(i + 1), d) =~= prev + spec_split(
                    rest,
                    d,
                ));
            }
            start = i + 1;
        }
        i += 1;
    }
    r
}

/// ASCII whitespace: space, tab, line feed, form feed, carriage return.
pub open spec fn is_ws(b: u8) -> bool {
    b == 0x20 || b == 0x09 || b == 0x0a || b == 0x0c || b == 0x0d
}

/// Runtime test for ASCII whitespace.
pub fn is_ws_byte(b: u8) -> (r: bool)
    ensures
        r == is_ws(b),
{
    b == 0x20 || b == 0x09 || b == 0x0a || b == 0x0c || b == 0x0d
}

/// Index of the first whitespace byte in `s`, or `s.len()`.
pub open spec fn spec_find_ws(s: Seq<u8>) -> int
    decreases s.len(),
{
    if s.len() == 0 || is_ws(s[0]) {
        0
    } else {
        1 + spec_find_ws(s.drop_first())
    }
}

/// `spec_find_ws` is pinned down the same way as `spec_find`: by a
/// whitespace-free prefix ending at whitespace or at the end.
pub proof fn lemma_find_ws_is(s: Seq<u8>, i: int)
    requires
        0 <= i <= s.len(),
        forall|j: int| 0 <= j < i ==> !is_ws(#[trigger] s[j]),
        i < s.len() ==> is_ws(s[i]),
    ensures
        spec_find_ws(s) == i,
    decreases i,
{
    if i == 0 {
    } else {
        lemma_find_ws_is(s.drop_first(), i - 1);
    }
}

/// Maximal runs of non-whitespace bytes in `s`, in order, as
/// `str::split_whitespace` produces them.
pub open spec fn spec_tokens(s: Seq<u8>) -> Seq<Seq<u8>>
    decreases s.len(),
{
    if s.len() == 0 {
        Seq::empty()
    } else if is_ws(s[0]) {
        spec_tokens(s.drop_first())
    } else {
        let k = spec_find_ws(s);
        if 1 <= k <= s.len() {
            seq![s.take(k)] + spec_tokens(s.skip(k))
        } else {
            Seq::empty()
        }
    }
}

/// Split `s` into whitespace-delimited tokens.
pub fn tokenize(s: &Vec<u8>) -> (r: Vec<Vec<u8>>)
    ensures
        r.deep_view() == spec_tokens(s@),
{
    let mut r: Vec<Vec<u8>> = Vec::new();
    let mut i: usize = 0;
    proof {
        assert(s@.skip(0) =~= s@);
        assert(r.deep_view() + spec_tokens(s@) =~= spec_tokens(s@));
    }
    while i < s.len()
        invariant
            i <= s@.len(),
            r.deep_view() + spec_tokens(s@.skip(i as int)) == spec_tokens(s@),
        decreases s@.len() - i,
    {
        if is_ws_byte(s[i]) {
            proof {
                assert(s@.skip(i as int).drop_first() =~= s@.skip(i + 1));
            }
            i += 1;
        } else {
            let mut j: usize = i + 1;
            while j < s.len() && !is_ws_byte(s[j])
                invariant
                    i < j <= s@.len(),
                    forall|m: int| i <= m < j ==> !is_ws(#[trigger] s@[m]),
                decreases s@.len() - j,
            {
                j += 1;
            }
            let token = subvec(s, i, j);
            let ghost prev = r.deep_view();
            let ghost rest = s@.skip(i as int);
            proof {
                assert forall|m: int| 0 <= m < j - i implies !is_ws(#[trigger] rest[m]) by {
                    assert(!is_ws(s@[m + i]));
                }
                if j < s@.len() {
                    assert(is_ws(rest[j - i]));
                }
                lemma_find_ws_is(rest, j - i);
                assert(token@ =~= rest.take(j - i));
                assert(rest.skip(j - i) =~= s@.skip(j as int));
            }
            r.push(token);
            proof {
                assert(r.deep_view() =~~= prev.push(token@));
                assert(r.deep_view() + spec_tokens(s@.skip(j as int)) =~= prev + spec_tokens(
                    rest,
                ));
            }
            i = j;
        }
    }
    proof {
        assert(s@.skip(s@.len() as int) =~= Seq::<u8>::empty());
        assert(r.deep_view() + Seq::<Seq<u8>>::empty() =~= r.deep_view());
    }
    r
}

/// Append `src` to the end of `dst`.
pub fn append_bytes(dst: &mut Vec<u8>, src: &Vec<u8>)
    ensures
        final(dst)@ == old(dst)@ + src@,
{
    let mut i: usize = 0;
    while i < src.len()
        invariant
            i <= src@.len(),
            dst@ == old(dst)@ + src@.take(i as int),
        decreases src@.len() - i,
    {
        dst.push(src[i]);
        proof {
            assert(old(dst)@ + src@.take(i + 1) =~= (old(dst)@ + src@.take(i as int)).push(
                src@[i as int],
            ));
        }
        i += 1;
    }
    proof {
        assert(src@.take(src@.len() as int) =~= src@);
    }
}

/// The given token sequence joined by single spaces.
pub open spec fn spec_join_spaces(ts: Seq<Seq<u8>>) -> Seq<u8>
    decreases ts.len(),
{
    if ts.len() == 0 {
        Seq::empty()
    } else if ts.len() == 1 {
        ts[0]
    } else {
        ts[0] + seq![0x20u8] + spec_join_spaces(ts.drop_first())
    }
}

/// Join the tokens from index `from` on with single spaces.
pub fn join_spaces(ts: &Vec<Vec<u8>>, from: usize) -> (r: Vec<u8>)
    requires
        from <= ts@.len(),
    ensures
        r@ == spec_join_spaces(ts.deep_view().skip(from as int)),
{
    let ghost goal = spec_join_spaces(ts.deep_view().skip(from as int));
    let mut r: Vec<u8> = Vec::new();
    let mut k: usize = from;
    proof {
        assert(r@ + goal =~= goal);
    }
    while k < ts.len()
        invariant
            from <= k <= ts@.len(),
            ts@.len() == ts.deep_view().len(),
            r@ + spec_join_spaces(ts.deep_view().skip(k as int)) == goal,
        decreases ts@.len() - k,
    {
        let ghost rest = ts.deep_view().skip(k as int);
        let ghost before = r@;
        proof {
            assert(rest[0] == ts.deep_view()[k as int]);
            assert(rest.drop_first() =~= ts.deep_view().skip(k + 1));
        }
        append_bytes(&mut r, &ts[k]);
        if k + 1 < ts.len() {
            r.push(0x20);
            proof {
                assert(r@ =~= before + (rest[0] + seq![0x20u8]));
                assert(r@ + spec_join_spaces(ts.deep_view().skip(k + 1)) =~= before
                    + spec_join_spaces(rest));
            }
        } else {
            proof {
                assert(ts.deep_view().skip(k + 1) =~= Seq::<Seq<u8>>::empty());
                assert(r@ + spec_join_spaces(ts.deep_view().skip(k + 1)) =~= before
                    + spec_join_spaces(rest));
            }
        }
        k += 1;
    }
    proof {
        assert(ts.deep_view().skip(ts@.len() as int) =~= Seq::<Seq<u8>>::empty());
        assert(r@ + Seq::<u8>::empty() =~= r@);
    }
    r
}

/// Decimal digits of `n`, most significant first.
pub open spec fn spec_decimal(n: nat) -> Seq<u8>
    decreases n,
{
    if n < 10 {
        seq![(0x30 + n) as u8]
    } else {
        spec_decimal(n / 10) + seq![(0x30 + (n % 10)) as u8]
    }
}

/// Format `n` in decimal.
pub fn decimal_bytes(n: usize) -> (r: Vec<u8>)
    ensures
        r@ == spec_decimal(n as nat),
    decreases n,
{
    if n < 10 {
        let mut r: Vec<u8> = Vec::new();
        r.push(0x30 + (n as u8));
        proof {
            assert(r@ =~= spec_decimal(n as nat));
        }
        r
    } else {
        let mut r = decimal_bytes(n / 10);
        r.push(0x30 + ((n % 10) as u8));
        proof {
            assert(r@ =~= spec_decimal(n as nat));
        }
        r
    }
}

} // verus!
