//! Scanning of ASCII text: digit strings and separator-delimited fields.
use vstd::prelude::*;

verus! {

pub open spec fn is_dec_digit(c: u8) -> bool {
    48 <= c <= 57
}

pub open spec fn is_hex_digit(c: u8) -> bool {
    is_dec_digit(c) || (97 <= c <= 102) || (65 <= c <= 70)
}

pub open spec fn is_digit_in(c: u8, hex: bool) -> bool {
    if hex {
        is_hex_digit(c)
    } else {
        is_dec_digit(c)
    }
}

/// Value of one decimal or hexadecimal digit (either case).
pub open spec fn digit_value(c: u8) -> nat {
    if is_dec_digit(c) {
        (c - 48) as nat
    } else if 97 <= c <= 102 {
        (c - 87) as nat
    } else {
        (c - 55) as nat
    }
}

/// Value of a digit string, most significant digit first.
pub open spec fn number_value(t: Seq<u8>, hex: bool) -> nat
    decreases t.len(),
{
    if t.len() == 0 {
        0
    } else if hex {
        number_value(t.drop_last(), hex) * 16 + digit_value(t.last())
    } else {
        number_value(t.drop_last(), hex) * 10 + digit_value(t.last())
    }
}

/// A string of 1 to `max_len` digits; unless `lead_zero`, a string of two
/// or more digits does not start with `0`.
pub open spec fn is_number_text(t: Seq<u8>, hex: bool, max_len: nat, lead_zero: bool) -> bool {
    &&& 1 <= t.len() <= max_len
    &&& forall|i: int| 0 <= i < t.len() ==> is_digit_in(#[trigger] t[i], hex)
    &&& lead_zero || t.len() == 1 || t[0] != 48
}

/// A number text whose value is at most `max_value`.
pub open spec fn is_field(t: Seq<u8>, hex: bool, max_len: nat, lead_zero: bool, max_value: nat) -> bool {
    is_number_text(t, hex, max_len, lead_zero) && number_value(t, hex) <= max_value
}

pub open spec fn pow16(n: nat) -> nat
    decreases n,
{
    if n == 0 {
        1
    } else {
        16 * pow16((n - 1) as nat)
    }
}

/// Index of the first `c` in `s`, or the length of `s` where there is none.
pub open spec fn find_byte(s: Seq<u8>, c: u8) -> nat
    decreases s.len(),
{
    if s.len() == 0 {
        0
    } else if s[0] == c {
        0
    } else {
        1 + find_byte(s.subrange(1, s.len() as int), c)
    }
}

/// Index of the first two consecutive `c` in `s`, or the length of `s`
/// where there are none.
pub open spec fn find_pair(s: Seq<u8>, c: u8) -> nat
    decreases s.len(),
{
    if s.len() < 2 {
        s.len()
    } else if s[0] == c && s[1] == c {
        0
    } else {
        1 + find_pair(s.subrange(1, s.len() as int), c)
    }
}

/// The pieces of `s` between occurrences of `c`; `s` without `c` is one piece.
pub open spec fn split(s: Seq<u8>, c: u8) -> Seq<Seq<u8>>
    decreases s.len(),
{
    let k = find_byte(s, c);
    if k < s.len() {
        seq![s.subrange(0, k as int)] + split(s.subrange(k + 1 as int, s.len() as int), c)
    } else {
        seq![s]
    }
}

pub proof fn lemma_find_byte(s: Seq<u8>, c: u8, k: int)
    requires
        0 <= k <= s.len(),
        k < s.len() ==> s[k] == c,
        forall|i: int| 0 <= i < k ==> s[i] != c,
    ensures
        find_byte(s, c) == k,
    decreases k,
{
    if k > 0 {
        let t = s.subrange(1, s.len() as int);
        assert forall|i: int| 0 <= i < k - 1 implies t[i] != c by {
            assert(t[i] == s[i + 1]);
        }
        lemma_find_byte(t, c, k - 1);
    }
}

pub proof fn lemma_find_pair(s: Seq<u8>, c: u8, k: int)
    requires
        0 <= k <= s.len(),
        k == s.len() || (k + 1 < s.len() && s[k] == c && s[k + 1] == c),
        forall|i: int| 0 <= i < k && i + 1 < s.len() ==> !(#[trigger] s[i] == c && s[i + 1] == c),
    ensures
        find_pair(s, c) == k,
    decreases k,
{
    if k > 0 && s.len() >= 2 {
        let t = s.subrange(1, s.len() as int);
        assert forall|i: int| 0 <= i < k - 1 && i + 1 < t.len() implies !(#[trigger] t[i] == c
            && t[i + 1] == c) by {
            assert(t[i] == s[i + 1] && t[i + 1] == s[i + 2]);
        }
        lemma_find_pair(t, c, k - 1);
    }
}

fn digit_of(c: u8, hex: bool) -> (r: Option<u32>)
    ensures
        match r {
            Some(d) => is_digit_in(c, hex) && d == digit_value(c) && d < 16,
            None => !is_digit_in(c, hex),
        },
{
    if 48 <= c && c <= 57 {
        Some((c - 48) as u32)
    } else if hex && 97 <= c && c <= 102 {
        Some((c - 87) as u32)
    } else if hex && 65 <= c && c <= 70 {
        Some((c - 55) as u32)
    } else {
        None
    }
}

/// Reads `s[start..end]` as a number text.
pub fn parse_number(
    s: &[u8],
    start: usize,
    end: usize,
    hex: bool,
    max_len: usize,
    lead_zero: bool,
) -> (r: Option<u32>)
    requires
        start <= end <= s@.len(),
        max_len <= 5,
    ensures
        match r {
            Some(v) => is_number_text(s@.subrange(start as int, end as int), hex, max_len as nat, lead_zero)
                && v == number_value(s@.subrange(start as int, end as int), hex),
            None => !is_number_text(s@.subrange(start as int, end as int), hex, max_len as nat, lead_zero),
        },
{
    let ghost t = s@.subrange(start as int, end as int);
    if end - start < 1 || end - start > max_len {
        return None;
    }
    if !lead_zero && end - start > 1 && s[start] == 48 {
        assert(t[0] == s@[start as int]);
        return None;
    }
    proof {
        reveal_with_fuel(pow16, 6);
    }
    let mut v: u32 = 0;
    let mut i: usize = start;
    while i < end
        invariant
            start <= i <= end <= s@.len(),
            end - start <= 5,
            t == s@.subrange(start as int, end as int),
            v == number_value(s@.subrange(start as int, i as int), hex),
            v < pow16((i - start) as nat),
            pow16(4) == 65536,
            forall|k: int| start <= k < i ==> is_digit_in(#[trigger] s@[k], hex),
        decreases end - i,
    {
        match digit_of(s[i], hex) {
            None => {
                assert(t[i - start] == s@[i as int]);
                return None;
            },
            Some(d) => {
                assert(pow16((i - start) as nat) <= 65536) by {
                    reveal_with_fuel(pow16, 6);
                }
                let ghost p = s@.subrange(start as int, i as int + 1);
                assert(p.drop_last() =~= s@.subrange(start as int, i as int));
                assert(p.last() == s@[i as int]);
                if hex {
                    v = v * 16 + d;
                } else {
                    v = v * 10 + d;
                }
            },
        }
        i = i + 1;
    }
    assert forall|k: int| 0 <= k < t.len() implies is_digit_in(#[trigger] t[k], hex) by {
        assert(t[k] == s@[start + k]);
    }
    assert(t[0] == s@[start as int]);
    assert(s@.subrange(start as int, i as int) == t);
    Some(v)
}

/// Index of the first `c` in `s[start..end]`, or `end` where there is none.
pub fn find_in(s: &[u8], start: usize, end: usize, c: u8) -> (r: usize)
    requires
        start <= end <= s@.len(),
    ensures
        start <= r <= end,
        r - start == find_byte(s@.subrange(start as int, end as int), c),
{
    let mut i: usize = start;
    while i < end && s[i] != c
        invariant
            start <= i <= end <= s@.len(),
            forall|k: int| start <= k < i ==> s@[k] != c,
        decreases end - i,
    {
        i = i + 1;
    }
    let ghost t = s@.subrange(start as int, end as int);
    proof {
        assert forall|k: int| 0 <= k < i - start implies t[k] != c by {
            assert(t[k] == s@[start + k]);
        }
        if i < end {
            assert(t[i - start] == s@[i as int]);
        }
        lemma_find_byte(t, c, i - start);
    }
    i
}

/// Index of the first two consecutive `c` in `s`, or its length where there
/// are none.
pub fn find_pair_in(s: &[u8], c: u8) -> (r: usize)
    ensures
        r == find_pair(s@, c),
        r <= s@.len(),
        r < s@.len() ==> r + 1 < s@.len(),
{
    let n = s.len();
    let mut i: usize = 0;
    while n > 0 && i < n - 1 && !(s[i] == c && s[i + 1] == c)
        invariant
            n == s@.len(),
            i <= n,
            forall|k: int| 0 <= k < i && k + 1 < n ==> !(#[trigger] s@[k] == c && s@[k + 1] == c),
        decreases n - i,
    {
        i = i + 1;
    }
    if n == 0 || i >= n - 1 {
        i = n;
    }
    proof {
        lemma_find_pair(s@, c, i as int);
    }
    i
}

/// Reads the `sep`-separated fields of `s[start..end]`, each of which must
/// be a field in the sense of `is_field`.
pub fn parse_fields(
    s: &[u8],
    start: usize,
    end: usize,
    sep: u8,
    hex: bool,
    max_len: usize,
    lead_zero: bool,
    max_value: u32,
) -> (r: Option<Vec<u32>>)
    requires
        start <= end <= s@.len(),
        max_len <= 5,
    ensures
        ({
            let f = split(s@.subrange(start as int, end as int), sep);
            match r {
                Some(v) => v@.len() == f.len() && forall|i: int|
                    0 <= i < f.len() ==> is_field(
                        #[trigger] f[i],
                        hex,
                        max_len as nat,
                        lead_zero,
                        max_value as nat,
                    ) && v@[i] == number_value(f[i], hex),
                None => !(forall|i: int|
                    0 <= i < f.len() ==> is_field(
                        #[trigger] f[i],
                        hex,
                        max_len as nat,
                        lead_zero,
                        max_value as nat,
                    )),
            }
        }),
{
    let ghost whole = split(s@.subrange(start as int, end as int), sep);
    let mut out: Vec<u32> = Vec::new();
    let mut pos: usize = start;
    let ghost mut done: Seq<Seq<u8>> = seq![];
    loop
        invariant
            start <= pos <= end <= s@.len(),
            max_len <= 5,
            whole == split(s@.subrange(start as int, end as int), sep),
            whole == done + split(s@.subrange(pos as int, end as int), sep),
            out@.len() == done.len(),
            forall|i: int|
                0 <= i < done.len() ==> is_field(
                    #[trigger] done[i],
                    hex,
                    max_len as nat,
                    lead_zero,
                    max_value as nat,
                ) && out@[i] == number_value(done[i], hex),
        decreases end - pos,
    {
        let k = find_in(s, pos, end, sep);
        let ghost t = s@.subrange(pos as int, end as int);
        let ghost piece = s@.subrange(pos as int, k as int);
        let ghost rest = s@.subrange(k + 1, end as int);
        proof {
            assert(t.subrange(0, k - pos) =~= piece);
            if k < end {
                assert(t.subrange(k - pos + 1, t.len() as int) =~= rest);
                assert(split(t, sep) == seq![piece] + split(rest, sep));
            } else {
                assert(piece =~= t);
                assert(split(t, sep) == seq![piece]);
            }
            assert(whole[done.len() as int] == piece);
        }
        let v = parse_number(s, pos, k, hex, max_len, lead_zero);
        match v {
            None => {
                return None;
            },
            Some(x) => {
                if x > max_value {
                    return None;
                }
                out.push(x);
                if k == end {
                    proof {
                        assert(whole =~= done.push(piece));
                    }
                    return Some(out);
                }
                proof {
                    assert(whole =~= done.push(piece) + split(rest, sep));
                    done = done.push(piece);
                }
                pos = k + 1;
            },
        }
    }
}

} // verus!
