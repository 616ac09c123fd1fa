//! The kernel's CPU-list format (as in `/sys/devices/system/cpu/online`):
//!
//! ```text
//! list := "" | term ("," term)* [","]      (one trailing comma tolerated)
//! term := num | num "-" num                (low <= high)
//! num  := [0-9]+                           (value <= MAX_CPU_ID)
//! ```
//!
//! Everything else is refused: whitespace anywhere, signs, trailing garbage,
//! empty middle terms, inverted ranges and values above `MAX_CPU_ID`. The
//! parser never trims; callers strip the trailing newline of a sysfs file.

use vstd::prelude::*;

verus! {

/// The largest CPU id accepted (Linux's largest `NR_CPUS` is 8192).
pub const MAX_CPU_ID: usize = 8191;

/// The byte `,`, which separates terms.
pub const COMMA: u8 = 44;

/// The byte `-`, which separates the two ends of a range.
pub const DASH: u8 = 45;

pub open spec fn is_digit(b: u8) -> bool {
    48 <= b <= 57
}

/// The decimal value of a string of ASCII digits.
pub open spec fn digits_value(t: Seq<u8>) -> int
    decreases t.len(),
{
    if t.len() == 0 {
        0
    } else {
        digits_value(t.drop_last()) * 10 + (t.last() - 48)
    }
}

/// `t` is a `num` of the grammar: a nonempty run of digits whose value is a
/// CPU id.
pub open spec fn is_cpu_number(t: Seq<u8>) -> bool {
    &&& t.len() > 0
    &&& forall|i: int| 0 <= i < t.len() ==> is_digit(#[trigger] t[i])
    &&& digits_value(t) <= MAX_CPU_ID
}

/// The index of the first occurrence of `b` in `t`, or `t.len()` if none.
pub open spec fn first_index_of(t: Seq<u8>, b: u8) -> nat
    decreases t.len(),
{
    if t.len() == 0 {
        0
    } else if t[0] == b {
        0
    } else {
        1 + first_index_of(t.drop_first(), b)
    }
}

/// The two ends of the range that the term `t` names, if `t` is a `term`.
pub open spec fn term_bounds(t: Seq<u8>) -> Option<(int, int)> {
    let d = first_index_of(t, DASH) as int;
    if d >= t.len() {
        if is_cpu_number(t) {
            Some((digits_value(t), digits_value(t)))
        } else {
            None
        }
    } else {
        let lo = t.take(d);
        let hi = t.skip(d + 1);
        if is_cpu_number(lo) && is_cpu_number(hi) && digits_value(lo) <= digits_value(hi) {
            Some((digits_value(lo), digits_value(hi)))
        } else {
            None
        }
    }
}

/// The CPUs `lo, lo + 1, ..., hi`.
pub open spec fn cpu_range(lo: int, hi: int) -> Seq<usize> {
    Seq::new((hi - lo + 1) as nat, |i: int| (lo + i) as usize)
}

/// The CPUs that the term `t` names, if it is a `term`.
pub open spec fn term_cpus(t: Seq<u8>) -> Option<Seq<usize>> {
    match term_bounds(t) {
        Some((lo, hi)) => Some(cpu_range(lo, hi)),
        None => None,
    }
}

/// The CPUs that `s` names, if it is a comma-separated sequence of one or
/// more terms (with no trailing comma).
pub open spec fn terms_cpus(s: Seq<u8>) -> Option<Seq<usize>>
    decreases s.len(),
{
    let k = first_index_of(s, COMMA) as int;
    if k >= s.len() {
        term_cpus(s)
    } else {
        match (term_cpus(s.take(k)), terms_cpus(s.skip(k + 1))) {
            (Some(a), Some(b)) => Some(a + b),
            _ => None,
        }
    }
}

/// The CPUs that the CPU list `s` names, in the order written, or `None`
/// if `s` is not a CPU list.
pub open spec fn cpu_list_spec(s: Seq<u8>) -> Option<Seq<usize>> {
    if s.len() == 0 {
        Some(Seq::empty())
    } else if s.last() == COMMA {
        terms_cpus(s.drop_last())
    } else {
        terms_cpus(s)
    }
}

/// The bytes that may occur in a CPU list.
pub open spec fn is_list_byte(b: u8) -> bool {
    is_digit(b) || b == COMMA || b == DASH
}

/// `a` followed by what `rest` holds, if it holds anything.
pub open spec fn prepend(a: Seq<usize>, rest: Option<Seq<usize>>) -> Option<Seq<usize>> {
    match rest {
        Some(b) => Some(a + b),
        None => None,
    }
}

/// A value clamped to `MAX_CPU_ID + 1`: anything too large to be a CPU id
/// is represented by that one value.
pub open spec fn clamp_id(v: int) -> int {
    if v > MAX_CPU_ID { MAX_CPU_ID + 1 } else { v }
}

proof fn lemma_first_index_of(t: Seq<u8>, b: u8, k: int)
    requires
        0 <= k <= t.len(),
        forall|i: int| 0 <= i < k ==> t[i] != b,
        k == t.len() || t[k] == b,
    ensures
        first_index_of(t, b) == k,
    decreases k,
{
    if k > 0 {
        let r = t.drop_first();
        assert forall|i: int| 0 <= i < k - 1 implies r[i] != b by {
            assert(r[i] == t[i + 1]);
        }
        lemma_first_index_of(r, b, k - 1);
    }
}

/// The first index in `start..end` at which `s` holds `b`, or `end`.
fn find_byte(s: &[u8], start: usize, end: usize, b: u8) -> (k: usize)
    requires
        start <= end <= s@.len(),
    ensures
        start <= k <= end,
        first_index_of(s@.subrange(start as int, end as int), b) == k - start,
{
    let mut k = start;
    while k < end && s[k] != b
        invariant
            start <= k <= end <= s@.len(),
            forall|i: int| start <= i < k ==> s@[i] != b,
        decreases end - k,
    {
        k += 1;
    }
    proof {
        let t = s@.subrange(start as int, end as int);
        assert forall|i: int| 0 <= i < k - start implies t[i] != b by {
            assert(t[i] == s@[start + i]);
        }
        lemma_first_index_of(t, b, k - start);
    }
    k
}

/// The CPU id that `s[start..end]` spells, if it is a `num` of the grammar.
fn parse_number(s: &[u8], start: usize, end: usize) -> (r: Option<usize>)
    requires
        start <= end <= s@.len(),
    ensures
        ({
            let t = s@.subrange(start as int, end as int);
            match r {
                Some(v) => is_cpu_number(t) && v == digits_value(t),
                None => !is_cpu_number(t),
            }
        }),
{
    let ghost t = s@.subrange(start as int, end as int);
    if start == end {
        return None;
    }
    let mut v: usize = 0;
    let mut i = start;
    while i < end
        invariant
            start <= i <= end <= s@.len(),
            t == s@.subrange(start as int, end as int),
            forall|k: int| start <= k < i ==> is_digit(#[trigger] s@[k]),
            v == clamp_id(digits_value(s@.subrange(start as int, i as int))),
        decreases end - i,
    {
        let b = s[i];
        if b < 48 || b > 57 {
            assert(!is_digit(t[i - start]));
            return None;
        }
        proof {
            let p = s@.subrange(start as int, i + 1);
            assert(p.drop_last() =~= s@.subrange(start as int, i as int));
            assert(p.last() == b);
        }
        if v <= MAX_CPU_ID {
            v = v * 10 + (b - 48) as usize;
            if v > MAX_CPU_ID {
                v = MAX_CPU_ID + 1;
            }
        }
        i += 1;
    }
    assert(t =~= s@.subrange(start as int, i as int));
    assert forall|k: int| 0 <= k < t.len() implies is_digit(#[trigger] t[k]) by {
        assert(t[k] == s@[start + k]);
    }
    if v <= MAX_CPU_ID {
        Some(v)
    } else {
        None
    }
}

/// The ends of the range that `s[start..end]` names, if it is a `term`.
fn parse_term(s: &[u8], start: usize, end: usize) -> (r: Option<(usize, usize)>)
    requires
        start <= end <= s@.len(),
    ensures
        ({
            let t = s@.subrange(start as int, end as int);
            match r {
                Some((lo, hi)) => term_bounds(t) == Some((lo as int, hi as int)),
                None => term_bounds(t) is None,
            }
        }),
{
    let ghost t = s@.subrange(start as int, end as int);
    let d = find_byte(s, start, end, DASH);
    if d == end {
        match parse_number(s, start, end) {
            Some(v) => Some((v, v)),
            None => None,
        }
    } else {
        assert(t.take(d - start) =~= s@.subrange(start as int, d as int));
        assert(t.skip(d - start + 1) =~= s@.subrange(d + 1, end as int));
        let lo = parse_number(s, start, d);
        let hi = parse_number(s, d + 1, end);
        match (lo, hi) {
            (Some(a), Some(b)) => {
                if a <= b {
                    Some((a, b))
                } else {
                    None
                }
            },
            _ => None,
        }
    }
}

/// Parses a CPU list such as `0-3,8,10-11` into the CPUs it names, in the
/// order written (ranges expanded); `None` if `list` is not a CPU list.
pub fn parse_cpu_list(list: &[u8]) -> (r: Option<Vec<usize>>)
    ensures
        match r {
            Some(v) => cpu_list_spec(list@) == Some(v@),
            None => cpu_list_spec(list@) is None,
        },
        r matches Some(v) ==> forall|i: int| 0 <= i < v@.len() ==> v@[i] <= MAX_CPU_ID,
{
    let n = list.len();
    if n == 0 {
        return Some(Vec::new());
    }
    let end = if list[n - 1] == COMMA { n - 1 } else { n };
    proof {
        if end < n {
            assert(list@.drop_last() =~= list@.subrange(0, end as int));
        } else {
            assert(list@ =~= list@.subrange(0, end as int));
        }
    }
    let ghost body = list@.subrange(0, end as int);
    let mut out: Vec<usize> = Vec::new();
    let mut pos: usize = 0;
    assert(body.subrange(0, end as int) =~= body);
    proof {
        if let Some(b) = terms_cpus(body) {
            assert(out@ + b =~= b);
        }
    }
    loop
        invariant
            0 <= pos <= end <= n == list@.len(),
            body == list@.subrange(0, end as int),
            cpu_list_spec(list@) == terms_cpus(body),
            terms_cpus(body) == prepend(out@, terms_cpus(list@.subrange(pos as int, end as int))),
            forall|i: int| 0 <= i < out@.len() ==> out@[i] <= MAX_CPU_ID,
        decreases end - pos,
    {
        let ghost rest = list@.subrange(pos as int, end as int);
        let ghost out0 = out@;
        let j = find_byte(list, pos, end, COMMA);
        let ghost k = j - pos;
        let term = parse_term(list, pos, j);
        let ghost head = list@.subrange(pos as int, j as int);
        proof {
            if j < end {
                assert(rest.take(k) =~= head);
                assert(rest.skip(k + 1) =~= list@.subrange(j + 1, end as int));
            } else {
                assert(rest =~= head);
            }
        }
        match term {
            None => {
                return None;
            },
            Some((lo, hi)) => {
                let mut c = lo;
                while c <= hi
                    invariant
                        lo <= c <= hi + 1,
                        hi <= MAX_CPU_ID,
                        out@ =~= out0 + Seq::new((c - lo) as nat, |i: int| (lo + i) as usize),
                        forall|i: int| 0 <= i < out@.len() ==> out@[i] <= MAX_CPU_ID,
                    decreases hi + 1 - c,
                {
                    out.push(c);
                    c += 1;
                }
                assert(out@ =~= out0 + cpu_range(lo as int, hi as int));
                proof {
                    let range = cpu_range(lo as int, hi as int);
                    if j < end {
                        let tail = terms_cpus(list@.subrange(j + 1, end as int));
                        if let Some(b) = tail {
                            assert(out0 + (range + b) =~= (out0 + range) + b);
                        }
                    }
                }
                if j == end {
                    return Some(out);
                }
                pos = j + 1;
            },
        }
    }
}

proof fn lemma_first_index_bounds(t: Seq<u8>, b: u8)
    ensures
        first_index_of(t, b) <= t.len(),
        first_index_of(t, b) < t.len() ==> t[first_index_of(t, b) as int] == b,
        forall|i: int| 0 <= i < first_index_of(t, b) ==> t[i] != b,
    decreases t.len(),
{
    if t.len() > 0 && t[0] != b {
        let r = t.drop_first();
        lemma_first_index_bounds(r, b);
        assert forall|i: int| 0 <= i < first_index_of(t, b) implies t[i] != b by {
            if i > 0 {
                assert(t[i] == r[i - 1]);
            }
        }
    }
}

proof fn lemma_term_bytes(t: Seq<u8>)
    requires
        term_bounds(t) is Some,
    ensures
        forall|i: int| 0 <= i < t.len() ==> is_list_byte(#[trigger] t[i]),
{
    lemma_first_index_bounds(t, DASH);
    let d = first_index_of(t, DASH) as int;
    if d < t.len() {
        let lo = t.take(d);
        let hi = t.skip(d + 1);
        assert forall|i: int| 0 <= i < t.len() implies is_list_byte(#[trigger] t[i]) by {
            if i < d {
                assert(t[i] == lo[i]);
            } else if i > d {
                assert(t[i] == hi[i - d - 1]);
            }
        }
    }
}

proof fn lemma_terms_bytes(s: Seq<u8>)
    requires
        terms_cpus(s) is Some,
    ensures
        forall|i: int| 0 <= i < s.len() ==> is_list_byte(#[trigger] s[i]),
    decreases s.len(),
{
    lemma_first_index_bounds(s, COMMA);
    let k = first_index_of(s, COMMA) as int;
    if k >= s.len() {
        lemma_term_bytes(s);
    } else {
        let head = s.take(k);
        let tail = s.skip(k + 1);
        lemma_term_bytes(head);
        lemma_terms_bytes(tail);
        assert forall|i: int| 0 <= i < s.len() implies is_list_byte(#[trigger] s[i]) by {
            if i < k {
                assert(s[i] == head[i]);
            } else if i > k {
                assert(s[i] == tail[i - k - 1]);
            }
        }
    }
}

/// A CPU list holds nothing but digits, commas and dashes: whitespace, a
/// sign or any other byte anywhere in it makes it invalid.
pub proof fn lemma_list_bytes(s: Seq<u8>)
    requires
        cpu_list_spec(s) is Some,
    ensures
        forall|i: int| 0 <= i < s.len() ==> is_list_byte(#[trigger] s[i]),
{
    if s.len() > 0 {
        if s.last() == COMMA {
            let body = s.drop_last();
            lemma_terms_bytes(body);
            assert forall|i: int| 0 <= i < s.len() implies is_list_byte(#[trigger] s[i]) by {
                if i < body.len() {
                    assert(s[i] == body[i]);
                }
            }
        } else {
            lemma_terms_bytes(s);
        }
    }
}

proof fn lemma_terms_comma_appended(t: Seq<u8>)
    ensures
        terms_cpus(t.push(COMMA)) is None,
    decreases t.len(),
{
    let u = t.push(COMMA);
    lemma_first_index_bounds(t, COMMA);
    lemma_first_index_bounds(u, COMMA);
    let k = first_index_of(t, COMMA) as int;
    if k < t.len() {
        assert(u[k] == COMMA);
        assert forall|i: int| 0 <= i < k implies u[i] != COMMA by {
            assert(u[i] == t[i]);
        }
        lemma_first_index_of(u, COMMA, k);
        assert(u.take(k) =~= t.take(k));
        assert(u.skip(k + 1) =~= t.skip(k + 1).push(COMMA));
        lemma_terms_comma_appended(t.skip(k + 1));
    } else {
        assert forall|i: int| 0 <= i < t.len() implies u[i] != COMMA by {
            assert(u[i] == t[i]);
        }
        lemma_first_index_of(u, COMMA, t.len() as int);
        assert(u.skip(t.len() as int + 1) =~= Seq::<u8>::empty());
        let e = Seq::<u8>::empty();
        assert(first_index_of(e, COMMA) == 0);
        assert(first_index_of(e, DASH) == 0);
        assert(!is_cpu_number(e));
        assert(term_bounds(e) is None);
        assert(terms_cpus(e) is None);
    }
}

/// One trailing comma is tolerated: appending it to a nonempty list that
/// does not end in one changes nothing. A second one is not: a list that
/// ends in two commas is invalid.
pub proof fn lemma_trailing_comma(s: Seq<u8>)
    ensures
        s.len() > 0 && s.last() != COMMA ==> cpu_list_spec(s.push(COMMA)) == cpu_list_spec(s),
        cpu_list_spec(s.push(COMMA).push(COMMA)) is None,
{
    assert(s.push(COMMA).drop_last() =~= s);
    assert(s.push(COMMA).push(COMMA).drop_last() =~= s.push(COMMA));
    lemma_terms_comma_appended(s);
}

/// The decimal spelling of `n`, without leading zeros.
pub open spec fn decimal(n: nat) -> Seq<u8>
    decreases n,
{
    if n < 10 {
        seq![(48 + n) as u8]
    } else {
        decimal(n / 10).push((48 + n % 10) as u8)
    }
}

proof fn lemma_decimal(n: nat)
    ensures
        decimal(n).len() > 0,
        forall|i: int| 0 <= i < decimal(n).len() ==> 48 <= #[trigger] decimal(n)[i] <= 57,
        digits_value(decimal(n)) == n,
    decreases n,
{
    let t = decimal(n);
    if n < 10 {
        assert(t.drop_last() =~= Seq::<u8>::empty());
        assert(t.last() == (48 + n) as u8);
        assert(((48 + n) as u8) as int == 48 + n);
        assert(digits_value(Seq::<u8>::empty()) == 0);
        assert(digits_value(t) == digits_value(t.drop_last()) * 10 + (t.last() - 48));
    } else {
        let d = decimal(n / 10);
        lemma_decimal(n / 10);
        assert(t.drop_last() =~= d);
        assert(t.last() == (48 + n % 10) as u8);
        assert(((48 + n % 10) as u8) as int == 48 + n % 10);
        assert((n / 10) * 10 + n % 10 == n);
        assert(digits_value(t) == digits_value(t.drop_last()) * 10 + (t.last() - 48));
        assert forall|i: int| 0 <= i < t.len() implies 48 <= #[trigger] t[i] <= 57 by {
            if i < d.len() {
                assert(t[i] == d[i]);
            }
        }
    }
}

/// Every CPU id, spelt in decimal, is a CPU list naming that CPU alone;
/// and `lo-hi`, for ids `lo <= hi`, names `lo, lo + 1, ..., hi`. So every
/// digit `0` to `9` is accepted wherever it stands.
pub proof fn lemma_decimal_lists(lo: nat, hi: nat)
    requires
        lo <= hi <= MAX_CPU_ID,
    ensures
        cpu_list_spec(decimal(hi)) == Some(seq![hi as usize]),
        cpu_list_spec(decimal(lo) + seq![DASH] + decimal(hi)) == Some(
            Seq::new((hi - lo + 1) as nat, |i: int| (lo + i) as usize),
        ),
{
    lemma_decimal(lo);
    lemma_decimal(hi);
    let h = decimal(hi);
    let l = decimal(lo);
    // A single id.
    assert forall|i: int| 0 <= i < h.len() implies h[i] != COMMA && h[i] != DASH by {
        assert(48 <= h[i] <= 57);
    }
    lemma_first_index_of(h, COMMA, h.len() as int);
    lemma_first_index_of(h, DASH, h.len() as int);
    assert(is_cpu_number(h));
    assert(h.last() != COMMA) by {
        assert(48 <= h[h.len() - 1] <= 57);
    }
    assert(cpu_range(hi as int, hi as int) =~= seq![hi as usize]);
    // A range.
    let s = l + seq![DASH] + h;
    let d = l.len() as int;
    assert(s[d] == DASH);
    assert forall|i: int| 0 <= i < d implies s[i] != DASH && s[i] != COMMA by {
        assert(s[i] == l[i]);
        assert(48 <= l[i] <= 57);
    }
    assert forall|i: int| 0 <= i < s.len() implies s[i] != COMMA by {
        if i < d {
            assert(s[i] == l[i]);
            assert(48 <= l[i] <= 57);
        } else if i > d {
            assert(s[i] == h[i - d - 1]);
            assert(48 <= h[i - d - 1] <= 57);
        }
    }
    lemma_first_index_of(s, COMMA, s.len() as int);
    lemma_first_index_of(s, DASH, d);
    assert(s.take(d) =~= l);
    assert(s.skip(d + 1) =~= h);
    assert(is_cpu_number(l));
    assert(s.last() == h.last());
    assert(cpu_range(lo as int, hi as int) =~= Seq::new((hi - lo + 1) as nat, |i: int| (lo + i) as usize));
}

} // verus!
