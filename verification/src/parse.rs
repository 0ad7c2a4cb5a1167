//! Parsing a decrypted plaintext into a ballot record.
//!
//! The plaintext grammar is the compact serialization of a ballot record:
//!
//! ```text
//! {"nonce":N,"vote":{"name":"C","party":"P"}}
//! ```
//!
//! where `N` is a decimal number without leading zeros that fits in an
//! unsigned 64-bit integer, and `C` and `P` are strings free of `"` and `\`.
//! The whole grammar is stated as the spec function [`parse_ballot`]; the
//! executable parser returns exactly what that function says, for every
//! input.

use vstd::prelude::*;
use vstd::string::StrSliceExecFns;
use vstd::string::StringExecFns;
use crate::ballot::{Ballot, BallotModel};

verus! {

/// A decimal digit.
pub open spec fn is_dec_digit(c: char) -> bool {
    ('0' as int) <= (c as int) && (c as int) <= ('9' as int)
}

/// A character that may stand inside a quoted name: anything but the
/// closing quote or an escape introducer.
pub open spec fn is_text_char(c: char) -> bool {
    c != '"' && c != '\\'
}

/// The value of a sequence of decimal digits, most significant first.
pub open spec fn dec_val(s: Seq<char>) -> int
    decreases s.len(),
{
    if s.len() == 0 {
        0
    } else {
        dec_val(s.drop_last()) * 10 + (s.last() as int - '0' as int)
    }
}

/// The first position at or after `i` that does not hold a decimal digit.
pub open spec fn digit_run_end(s: Seq<char>, i: int) -> int
    decreases s.len() - i,
{
    if i < 0 || i >= s.len() {
        i
    } else if is_dec_digit(s[i]) {
        digit_run_end(s, i + 1)
    } else {
        i
    }
}

/// The first position at or after `i` that ends a quoted name: a `"` or a
/// `\`, or the end of the input.
pub open spec fn text_run_end(s: Seq<char>, i: int) -> int
    decreases s.len() - i,
{
    if i < 0 || i >= s.len() {
        i
    } else if is_text_char(s[i]) {
        text_run_end(s, i + 1)
    } else {
        i
    }
}

/// The record's opening, up to the nonce's digits.
pub open spec fn lit_nonce() -> Seq<char> {
    "{\"nonce\":"@
}

/// Between the nonce and the candidate name.
pub open spec fn lit_vote() -> Seq<char> {
    ",\"vote\":{\"name\":\""@
}

/// Between the candidate name and the party name.
pub open spec fn lit_party() -> Seq<char> {
    "\",\"party\":\""@
}

/// After the party name, closing the record.
pub open spec fn lit_end() -> Seq<char> {
    "\"}}"@
}

/// What a plaintext parses to: the ballot record it spells, or nothing when
/// it is not in the grammar. This pins the parser in both directions: every
/// input either yields exactly this record or is rejected.
pub open spec fn parse_ballot(s: Seq<char>) -> Option<BallotModel> {
    if !(lit_nonce().len() <= s.len() && s.subrange(0, lit_nonce().len() as int) == lit_nonce()) {
        None
    } else {
        let i = lit_nonce().len() as int;
        let j = digit_run_end(s, i);
        if j == i {
            None
        } else if s[i] == '0' && j > i + 1 {
            None
        } else if dec_val(s.subrange(i, j)) > u64::MAX {
            None
        } else if !(j + lit_vote().len() <= s.len() && s.subrange(j, j + lit_vote().len() as int)
            == lit_vote()) {
            None
        } else {
            let k = j + lit_vote().len() as int;
            let q1 = text_run_end(s, k);
            if !(q1 + lit_party().len() <= s.len() && s.subrange(q1, q1 + lit_party().len() as int)
                == lit_party()) {
                None
            } else {
                let m = q1 + lit_party().len() as int;
                let q2 = text_run_end(s, m);
                if !(q2 + lit_end().len() == s.len() && s.subrange(q2, s.len() as int)
                    == lit_end()) {
                    None
                } else {
                    Some(
                        BallotModel {
                            nonce: dec_val(s.subrange(i, j)) as u64,
                            candidate: s.subrange(k, q1),
                            party: s.subrange(m, q2),
                        },
                    )
                }
            }
        }
    }
}

/// A digit run's value is never negative.
proof fn lemma_dec_val_bounds(s: Seq<char>)
    requires
        forall|k: int| 0 <= k < s.len() ==> is_dec_digit(s[k]),
    ensures
        dec_val(s) >= 0,
    decreases s.len(),
{
    if s.len() > 0 {
        lemma_dec_val_bounds(s.drop_last());
    }
}

/// Extending a digit run cannot lower its value.
proof fn lemma_dec_val_monotone(s: Seq<char>, a: int, b: int, c: int)
    requires
        0 <= a <= b <= c <= s.len(),
        forall|k: int| a <= k < c ==> is_dec_digit(s[k]),
    ensures
        dec_val(s.subrange(a, b)) <= dec_val(s.subrange(a, c)),
    decreases c - b,
{
    if b < c {
        let sb = s.subrange(a, b);
        let sb1 = s.subrange(a, b + 1);
        assert(sb1.drop_last() =~= sb);
        assert(forall|k: int| 0 <= k < sb.len() ==> is_dec_digit(sb[k]));
        lemma_dec_val_bounds(sb);
        assert(dec_val(sb1) == dec_val(sb) * 10 + (s[b] as int - '0' as int));
        assert(dec_val(sb) <= dec_val(sb1));
        lemma_dec_val_monotone(s, a, b + 1, c);
    } else {
        assert(s.subrange(a, b) =~= s.subrange(a, c));
    }
}

/// The digit run really is one: digits throughout, ended by a non-digit.
proof fn lemma_digit_run(s: Seq<char>, i: int)
    requires
        0 <= i <= s.len(),
    ensures
        i <= digit_run_end(s, i) <= s.len(),
        forall|k: int| i <= k < digit_run_end(s, i) ==> is_dec_digit(s[k]),
        digit_run_end(s, i) < s.len() ==> !is_dec_digit(s[digit_run_end(s, i)]),
    decreases s.len() - i,
{
    if i < s.len() && is_dec_digit(s[i]) {
        lemma_digit_run(s, i + 1);
    }
}

/// The quoted-name run: plain characters throughout, ended by `"` or `\`.
proof fn lemma_text_run(s: Seq<char>, i: int)
    requires
        0 <= i <= s.len(),
    ensures
        i <= text_run_end(s, i) <= s.len(),
        forall|k: int| i <= k < text_run_end(s, i) ==> is_text_char(s[k]),
        text_run_end(s, i) < s.len() ==> !is_text_char(s[text_run_end(s, i)]),
    decreases s.len() - i,
{
    if i < s.len() && is_text_char(s[i]) {
        lemma_text_run(s, i + 1);
    }
}

/// The digit character for a value below ten.
pub open spec fn digit_char(d: int) -> char {
    if d == 0 {
        '0'
    } else if d == 1 {
        '1'
    } else if d == 2 {
        '2'
    } else if d == 3 {
        '3'
    } else if d == 4 {
        '4'
    } else if d == 5 {
        '5'
    } else if d == 6 {
        '6'
    } else if d == 7 {
        '7'
    } else if d == 8 {
        '8'
    } else {
        '9'
    }
}

/// The canonical decimal spelling of a non-negative number: most significant
/// digit first, no leading zeros.
pub open spec fn dec_digits(n: int) -> Seq<char>
    decreases n,
{
    if n < 10 {
        seq![digit_char(n)]
    } else {
        dec_digits(n / 10).push(digit_char(n % 10))
    }
}

/// The canonical plaintext spelling a ballot: the one the grammar reads back.
pub open spec fn ser_ballot(b: BallotModel) -> Seq<char> {
    lit_nonce() + dec_digits(b.nonce as int) + lit_vote() + b.candidate + lit_party() + b.party
        + lit_end()
}

/// A canonical spelling consists of digits and carries the spelled value.
proof fn lemma_dec_digits(n: int)
    requires
        n >= 0,
    ensures
        dec_digits(n).len() >= 1,
        forall|k: int| 0 <= k < dec_digits(n).len() ==> is_dec_digit(#[trigger] dec_digits(n)[k]),
        dec_val(dec_digits(n)) == n,
        n >= 1 ==> dec_digits(n)[0] != '0',
        n == 0 ==> dec_digits(n).len() == 1,
    decreases n,
{
    if n < 10 {
        let s = seq![digit_char(n)];
        assert(s.drop_last() =~= Seq::<char>::empty());
        assert(dec_val(Seq::<char>::empty()) == 0);
        assert(dec_val(s) == digit_char(n) as int - '0' as int);
    } else {
        lemma_dec_digits(n / 10);
        let t = dec_digits(n / 10);
        let s = t.push(digit_char(n % 10));
        assert(s.drop_last() =~= t);
        assert(dec_val(s) == dec_val(t) * 10 + (digit_char(n % 10) as int - '0' as int));
        assert(s[0] == t[0]);
    }
}

/// A run of digits up to a non-digit (or the end) is exactly what
/// `digit_run_end` finds.
proof fn lemma_digit_run_exact(s: Seq<char>, i: int, e: int)
    requires
        0 <= i <= e <= s.len(),
        forall|k: int| i <= k < e ==> is_dec_digit(s[k]),
        e < s.len() ==> !is_dec_digit(s[e]),
    ensures
        digit_run_end(s, i) == e,
    decreases e - i,
{
    if i < e {
        lemma_digit_run_exact(s, i + 1, e);
    }
}

/// A run of plain characters up to a `"` or `\` (or the end) is exactly what
/// `text_run_end` finds.
proof fn lemma_text_run_exact(s: Seq<char>, i: int, e: int)
    requires
        0 <= i <= e <= s.len(),
        forall|k: int| i <= k < e ==> is_text_char(s[k]),
        e < s.len() ==> !is_text_char(s[e]),
    ensures
        text_run_end(s, i) == e,
    decreases e - i,
{
    if i < e {
        lemma_text_run_exact(s, i + 1, e);
    }
}

/// The grammar reads every canonically spelled ballot back to itself: for a
/// ballot whose names are free of `"` and `\`, parsing its spelling yields
/// exactly that ballot. Together with [`parse_ballot_text`]'s contract this
/// pins the parser from both sides: nothing is lost in the spelling, and no
/// other record can be read out of it.
pub proof fn lemma_canonical_ballot_parses(b: BallotModel)
    requires
        forall|k: int| 0 <= k < b.candidate.len() ==> is_text_char(#[trigger] b.candidate[k]),
        forall|k: int| 0 <= k < b.party.len() ==> is_text_char(#[trigger] b.party[k]),
    ensures
        parse_ballot(ser_ballot(b)) == Some(b),
{
    reveal_strlit("{\"nonce\":");
    reveal_strlit(",\"vote\":{\"name\":\"");
    reveal_strlit("\",\"party\":\"");
    reveal_strlit("\"}}");
    let d = dec_digits(b.nonce as int);
    lemma_dec_digits(b.nonce as int);
    let s = ser_ballot(b);
    let i = lit_nonce().len() as int;
    let j = i + d.len();
    let k = j + lit_vote().len();
    let q1 = k + b.candidate.len();
    let m = q1 + lit_party().len();
    let q2 = m + b.party.len();
    let n = q2 + lit_end().len();
    assert(s.len() == n);
    assert(s.subrange(0, i) =~= lit_nonce());
    assert(s.subrange(i, j) =~= d);
    assert(s.subrange(j, k as int) =~= lit_vote());
    assert(s.subrange(k as int, q1 as int) =~= b.candidate);
    assert(s.subrange(q1 as int, m as int) =~= lit_party());
    assert(s.subrange(m as int, q2 as int) =~= b.party);
    assert(s.subrange(q2 as int, n as int) =~= lit_end());
    assert(s[j] == lit_vote()[0]);
    assert(!is_dec_digit(s[j]));
    assert(forall|x: int| i <= x < j ==> is_dec_digit(#[trigger] s[x]));
    lemma_digit_run_exact(s, i, j);
    assert(s[i] == d[0]);
    assert(dec_val(s.subrange(i, j)) == b.nonce);
    assert(s[q1] == lit_party()[0]);
    assert(!is_text_char(s[q1]));
    assert(forall|x: int| k <= x < q1 ==> is_text_char(#[trigger] s[x]));
    lemma_text_run_exact(s, k as int, q1 as int);
    assert(s[q2] == lit_end()[0]);
    assert(!is_text_char(s[q2]));
    assert(forall|x: int| m <= x < q2 ==> is_text_char(#[trigger] s[x]));
    lemma_text_run_exact(s, m as int, q2 as int);
    assert(parse_ballot(s) == Some(b));
}

/// A digit run that does not start with `'0'` spells a positive value.
proof fn lemma_dec_val_pos(s: Seq<char>)
    requires
        s.len() >= 1,
        forall|k: int| 0 <= k < s.len() ==> is_dec_digit(s[k]),
        s[0] != '0',
    ensures
        dec_val(s) >= 1,
    decreases s.len(),
{
    if s.len() == 1 {
        assert(s.drop_last() =~= Seq::<char>::empty());
        assert(dec_val(Seq::<char>::empty()) == 0);
        assert(s[0] as int != '0' as int);
    } else {
        lemma_dec_val_pos(s.drop_last());
    }
}

/// A digit run without a leading zero is the canonical spelling of its value.
proof fn lemma_digits_canonical(s: Seq<char>)
    requires
        s.len() >= 1,
        forall|k: int| 0 <= k < s.len() ==> is_dec_digit(s[k]),
        s[0] != '0' || s.len() == 1,
    ensures
        dec_digits(dec_val(s)) == s,
    decreases s.len(),
{
    lemma_dec_val_bounds(s);
    let d = s.last() as int - '0' as int;
    if s.len() == 1 {
        assert(s.drop_last() =~= Seq::<char>::empty());
        assert(dec_val(Seq::<char>::empty()) == 0);
        assert(dec_val(s) == d);
        assert(digit_char(d) as int == s[0] as int);
        assert(digit_char(d) == s[0]);
        assert(dec_digits(d) =~= s);
    } else {
        let t = s.drop_last();
        let v = dec_val(s);
        lemma_dec_val_pos(t);
        lemma_dec_val_bounds(t);
        assert(v == dec_val(t) * 10 + d);
        assert(v / 10 == dec_val(t) && v % 10 == d) by (nonlinear_arith)
            requires
                v == dec_val(t) * 10 + d,
                0 <= d < 10,
                dec_val(t) >= 0,
        ;
        assert(v >= 10) by (nonlinear_arith)
            requires
                v == dec_val(t) * 10 + d,
                0 <= d,
                dec_val(t) >= 1,
        ;
        lemma_digits_canonical(t);
        assert(digit_char(d) as int == s.last() as int);
        assert(digit_char(d) == s.last());
        assert(dec_digits(v) =~= s);
    }
}

/// The converse of [`lemma_canonical_ballot_parses`]: any input the grammar
/// reads as a ballot is exactly that ballot's canonical spelling, and the
/// names it carries are free of `"` and `\`. Between the two, the grammar
/// holds precisely the canonical spellings, one per ballot.
pub proof fn lemma_parse_sound(s: Seq<char>, b: BallotModel)
    requires
        parse_ballot(s) == Some(b),
    ensures
        s == ser_ballot(b),
        forall|k: int| 0 <= k < b.candidate.len() ==> is_text_char(#[trigger] b.candidate[k]),
        forall|k: int| 0 <= k < b.party.len() ==> is_text_char(#[trigger] b.party[k]),
{
    let i = lit_nonce().len() as int;
    let j = digit_run_end(s, i);
    lemma_digit_run(s, i);
    let run = s.subrange(i, j);
    assert(forall|k: int| 0 <= k < run.len() ==> is_dec_digit(#[trigger] run[k]));
    assert(run[0] == s[i]);
    lemma_digits_canonical(run);
    lemma_dec_val_bounds(run);
    assert(b.nonce == dec_val(run));
    let k = j + lit_vote().len() as int;
    let q1 = text_run_end(s, k);
    lemma_text_run(s, k);
    let m = q1 + lit_party().len() as int;
    let q2 = text_run_end(s, m);
    lemma_text_run(s, m);
    assert(b.candidate == s.subrange(k, q1));
    assert(b.party == s.subrange(m, q2));
    assert(dec_digits(b.nonce as int) == run);
    let ser = ser_ballot(b);
    assert(ser.len() == s.len());
    assert forall|x: int| 0 <= x < s.len() implies s[x] == ser[x] by {
        if x < i {
            assert(s.subrange(0, i)[x] == s[x]);
        } else if x < j {
            assert(run[x - i] == s[x]);
        } else if x < k {
            assert(s.subrange(j, k)[x - j] == s[x]);
        } else if x < q1 {
            assert(s.subrange(k, q1)[x - k] == s[x]);
        } else if x < m {
            assert(s.subrange(q1, m)[x - q1] == s[x]);
        } else if x < q2 {
            assert(s.subrange(m, q2)[x - m] == s[x]);
        } else {
            assert(s.subrange(q2, s.len() as int)[x - q2] == s[x]);
        }
    }
    assert(s =~= ser);
}

/// Whether the literal `lit` stands in `s` at position `at`.
fn match_at(s: &str, at: usize, lit: &str) -> (b: bool)
    ensures
        b == (at + lit@.len() <= s@.len() && s@.subrange(at as int, at + lit@.len()) == lit@),
{
    let n = s.unicode_len();
    let m = lit.unicode_len();
    if at > n || m > n - at {
        return false;
    }
    let mut i: usize = 0;
    while i < m
        invariant
            n == s@.len(),
            m == lit@.len(),
            at + m <= n,
            i <= m,
            forall|k: int| 0 <= k < i ==> s@[at + k] == lit@[k],
        decreases m - i,
    {
        if s.get_char(at + i) != lit.get_char(i) {
            proof {
                assert(s@.subrange(at as int, at + lit@.len())[i as int] == s@[at + i]);
            }
            return false;
        }
        i += 1;
    }
    proof {
        assert(s@.subrange(at as int, at + lit@.len()) =~= lit@);
    }
    true
}

/// Whether `c` is a decimal digit.
fn is_digit_exec(c: char) -> (b: bool)
    ensures
        b == is_dec_digit(c),
{
    let u = c as u32;
    48 <= u && u <= 57
}

/// The end of the digit run starting at `from`.
fn digit_end(s: &str, from: usize) -> (e: usize)
    requires
        from <= s@.len(),
    ensures
        e == digit_run_end(s@, from as int),
        from <= e <= s@.len(),
{
    let n = s.unicode_len();
    let mut i = from;
    while i < n
        invariant
            from <= i <= n,
            n == s@.len(),
            digit_run_end(s@, from as int) == digit_run_end(s@, i as int),
        decreases n - i,
    {
        if !is_digit_exec(s.get_char(i)) {
            return i;
        }
        i += 1;
    }
    i
}

/// The end of the quoted-name run starting at `from`.
fn text_end(s: &str, from: usize) -> (e: usize)
    requires
        from <= s@.len(),
    ensures
        e == text_run_end(s@, from as int),
        from <= e <= s@.len(),
{
    let n = s.unicode_len();
    let mut i = from;
    while i < n
        invariant
            from <= i <= n,
            n == s@.len(),
            text_run_end(s@, from as int) == text_run_end(s@, i as int),
        decreases n - i,
    {
        let c = s.get_char(i);
        if c == '"' || c == '\\' {
            return i;
        }
        i += 1;
    }
    i
}

/// Read the digit run `[from, to)` as an unsigned 64-bit number; nothing
/// when the value is too large for one.
fn parse_u64_digits(s: &str, from: usize, to: usize) -> (r: Option<u64>)
    requires
        from <= to <= s@.len(),
        forall|k: int| from <= k < to ==> is_dec_digit(s@[k]),
    ensures
        match r {
            Some(v) => v == dec_val(s@.subrange(from as int, to as int)),
            None => dec_val(s@.subrange(from as int, to as int)) > u64::MAX,
        },
{
    let mut v: u64 = 0;
    let mut i = from;
    while i < to
        invariant
            from <= i <= to,
            to <= s@.len(),
            forall|k: int| from <= k < to ==> is_dec_digit(s@[k]),
            v == dec_val(s@.subrange(from as int, i as int)),
        decreases to - i,
    {
        let c = s.get_char(i);
        assert(is_dec_digit(s@[i as int]));
        let d: u64 = (c as u32 - 48) as u64;
        assert(d == s@[i as int] as int - '0' as int);
        proof {
            assert(s@.subrange(from as int, i + 1 as int).drop_last() =~= s@.subrange(
                from as int,
                i as int,
            ));
            assert(dec_val(s@.subrange(from as int, i + 1 as int)) == v * 10 + d);
        }
        if v > (u64::MAX - d) / 10 {
            proof {
                assert(v * 10 + d > u64::MAX) by (nonlinear_arith)
                    requires
                        v > (u64::MAX - d) / 10,
                        0 <= d <= 9,
                ;
                lemma_dec_val_monotone(s@, from as int, i + 1 as int, to as int);
            }
            return None;
        }
        proof {
            assert(v * 10 + d <= u64::MAX) by (nonlinear_arith)
                requires
                    v <= (u64::MAX - d) / 10,
                    0 <= d <= 9,
            ;
        }
        v = v * 10 + d;
        i += 1;
    }
    proof {
        assert(s@.subrange(from as int, to as int) =~= s@.subrange(from as int, i as int));
    }
    Some(v)
}

/// Parse a decrypted plaintext into a ballot. Returns exactly what the
/// grammar [`parse_ballot`] assigns to the input: the spelled record, or
/// nothing for any input outside the grammar.
pub fn parse_ballot_text(s: &str) -> (r: Option<Ballot>)
    ensures
        match r {
            Some(b) => parse_ballot(s@) == Some(b@),
            None => parse_ballot(s@) is None,
        },
{
    let n = s.unicode_len();
    let l1 = "{\"nonce\":";
    let l2 = ",\"vote\":{\"name\":\"";
    let l3 = "\",\"party\":\"";
    let l4 = "\"}}";
    if !match_at(s, 0, l1) {
        return None;
    }
    let i = l1.unicode_len();
    let j = digit_end(s, i);
    proof {
        lemma_digit_run(s@, i as int);
    }
    if j == i {
        return None;
    }
    if s.get_char(i) == '0' && j > i + 1 {
        return None;
    }
    let v = match parse_u64_digits(s, i, j) {
        Some(v) => v,
        None => {
            return None;
        },
    };
    if !match_at(s, j, l2) {
        return None;
    }
    let k = j + l2.unicode_len();
    let q1 = text_end(s, k);
    if !match_at(s, q1, l3) {
        return None;
    }
    let m = q1 + l3.unicode_len();
    let q2 = text_end(s, m);
    if !match_at(s, q2, l4) {
        return None;
    }
    if q2 + l4.unicode_len() != n {
        return None;
    }
    let candidate = s.substring_char(k, q1);
    let party = s.substring_char(m, q2);
    Some(
        Ballot {
            nonce: v,
            candidate: String::from_str(candidate),
            party: String::from_str(party),
        },
    )
}

} // verus!
