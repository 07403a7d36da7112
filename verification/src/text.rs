//! Character-sequence utilities for the manifest wire format.
//!
//! The codec works on `Vec<char>` so that every step of it is verified;
//! only the conversions between `str` and `Vec<char>` are trusted.

use vstd::prelude::*;

verus! {

/// Relies on str::chars: the characters of a string slice, in order.
#[verifier::external_body]
pub fn str_to_chars(s: &str) -> (r: Vec<char>)
    ensures
        r@ == s@,
{
    s.chars().collect()
}

/// Relies on String's FromIterator impl: collecting characters in order.
#[verifier::external_body]
pub fn chars_to_string(v: &Vec<char>) -> (r: String)
    ensures
        r@ == v@,
{
    v.iter().collect()
}

/// Append a literal's characters to `out`.
pub fn push_lit(out: &mut Vec<char>, s: &str)
    ensures
        final(out)@ == old(out)@ + s@,
{
    let mut cs = str_to_chars(s);
    out.append(&mut cs);
}

/// Copy of `v[lo..hi]`.
pub fn sub_chars(v: &Vec<char>, lo: usize, hi: usize) -> (r: Vec<char>)
    requires
        lo <= hi <= v@.len(),
    ensures
        r@ == v@.subrange(lo as int, hi as int),
{
    let mut out: Vec<char> = Vec::new();
    let mut i: usize = lo;
    while i < hi
        invariant
            lo <= i <= hi <= v@.len(),
            out@ == v@.subrange(lo as int, i as int),
        decreases hi - i,
    {
        out.push(v[i]);
        assert(v@.subrange(lo as int, i + 1 as int)
            == v@.subrange(lo as int, i as int).push(v@[i as int]));
        i = i + 1;
    }
    out
}

/// Element-wise equality of two character vectors.
pub fn chars_eq(a: &Vec<char>, b: &Vec<char>) -> (r: bool)
    ensures
        r == (a@ == b@),
{
    if a.len() != b.len() {
        return false;
    }
    let mut i: usize = 0;
    while i < a.len()
        invariant
            a@.len() == b@.len(),
            i <= a@.len(),
            forall|j: int| 0 <= j < i ==> a@[j] == b@[j],
        decreases a@.len() - i,
    {
        if a[i] != b[i] {
            return false;
        }
        i = i + 1;
    }
    assert(a@ =~= b@);
    true
}

// ///////////////// //
// Decimal numerals  //
// ///////////////// //

/// The character of one decimal digit.
pub open spec fn digit_char(d: int) -> char {
    if d == 0 { '0' }
    else if d == 1 { '1' }
    else if d == 2 { '2' }
    else if d == 3 { '3' }
    else if d == 4 { '4' }
    else if d == 5 { '5' }
    else if d == 6 { '6' }
    else if d == 7 { '7' }
    else if d == 8 { '8' }
    else if d == 9 { '9' }
    else { ' ' }
}

pub open spec fn is_digit(c: char) -> bool {
    c == '0' || c == '1' || c == '2' || c == '3' || c == '4'
    || c == '5' || c == '6' || c == '7' || c == '8' || c == '9'
}

/// The value of one decimal digit character.
pub open spec fn digit_val(c: char) -> int {
    if c == '0' { 0 }
    else if c == '1' { 1 }
    else if c == '2' { 2 }
    else if c == '3' { 3 }
    else if c == '4' { 4 }
    else if c == '5' { 5 }
    else if c == '6' { 6 }
    else if c == '7' { 7 }
    else if c == '8' { 8 }
    else if c == '9' { 9 }
    else { -1 }
}

/// The canonical decimal numeral of `n`: no sign, no leading zeros.
pub open spec fn dec_of(n: u32) -> Seq<char>
    decreases n,
{
    if n < 10 {
        seq![digit_char(n as int)]
    } else {
        dec_of(n / 10).push(digit_char((n % 10) as int))
    }
}

/// The number a digit string denotes, read left to right.
pub open spec fn dec_val(s: Seq<char>) -> int
    decreases s.len(),
{
    if s.len() == 0 {
        0
    } else {
        dec_val(s.drop_last()) * 10 + digit_val(s.last())
    }
}

/// Strict decimal parse: digits only, no leading zero, must fit in `u32`.
pub open spec fn parse_dec(s: Seq<char>) -> Option<u32> {
    if s.len() == 0 || !(forall|i: int| 0 <= i < s.len() ==> is_digit(s[i]))
        || (s.len() > 1 && s[0] == '0') || dec_val(s) > u32::MAX {
        None
    } else {
        Some(dec_val(s) as u32)
    }
}

/// The canonical numeral is nonempty, all digits, and denotes `n`.
pub proof fn lemma_dec_of_digits(n: u32)
    ensures
        dec_of(n).len() >= 1,
        forall|i: int| 0 <= i < dec_of(n).len() ==> is_digit(#[trigger] dec_of(n)[i]),
        dec_of(n)[0] != '0' || n < 10,
        dec_val(dec_of(n)) == n,
    decreases n,
{
    if n < 10 {
        let s = dec_of(n);
        assert(s == seq![digit_char(n as int)]);
        assert(s.drop_last() =~= Seq::<char>::empty());
        assert(s.last() == digit_char(n as int));
        assert(dec_val(s.drop_last()) == 0);
        assert(dec_val(s) == 0 * 10 + digit_val(digit_char(n as int)));
    } else {
        lemma_dec_of_digits(n / 10);
        let s = dec_of(n);
        assert(s == dec_of(n / 10).push(digit_char((n % 10) as int)));
        assert(s.drop_last() =~= dec_of(n / 10));
        assert(s.last() == digit_char((n % 10) as int));
        assert(dec_val(s) == dec_val(dec_of(n / 10)) * 10 + digit_val(digit_char((n % 10) as int)));
        assert(digit_val(digit_char((n % 10) as int)) == n % 10);
        assert(dec_val(s) == (n / 10) * 10 + n % 10);
        assert((n / 10) * 10 + n % 10 == n) by (nonlinear_arith);
        assert(forall|i: int| 0 <= i < s.len() ==> is_digit(#[trigger] s[i])) by {
            assert(forall|i: int| 0 <= i < s.len() - 1 ==> s[i] == #[trigger] dec_of(n / 10)[i]);
        }
    }
}

/// The canonical numeral of `n` parses back to `n`.
pub proof fn lemma_parse_dec_of(n: u32)
    ensures
        parse_dec(dec_of(n)) == Some(n),
{
    lemma_dec_of_digits(n);
    let s = dec_of(n);
    if s.len() > 1 {
        assert(n >= 10) by {
            if n < 10 {
                assert(s == seq![digit_char(n as int)]);
            }
        }
        assert(s[0] != '0');
    }
    assert(dec_val(s) == n);
}

/// Append the canonical numeral of `n` to `out`.
pub fn push_dec(out: &mut Vec<char>, n: u32)
    ensures
        final(out)@ == old(out)@ + dec_of(n),
    decreases n,
{
    if n < 10 {
        let d: char = match n {
            0 => '0',
            1 => '1',
            2 => '2',
            3 => '3',
            4 => '4',
            5 => '5',
            6 => '6',
            7 => '7',
            8 => '8',
            _ => '9',
        };
        out.push(d);
        assert(out@ =~= old(out)@ + dec_of(n));
    } else {
        push_dec(out, n / 10);
        let r = n % 10;
        let d: char = match r {
            0 => '0',
            1 => '1',
            2 => '2',
            3 => '3',
            4 => '4',
            5 => '5',
            6 => '6',
            7 => '7',
            8 => '8',
            _ => '9',
        };
        out.push(d);
        assert(d == digit_char((n % 10) as int));
        assert(out@ =~= old(out)@ + dec_of(n));
    }
}

/// Parse a strict decimal numeral; mirrors `parse_dec`.
pub fn parse_dec_chars(v: &Vec<char>) -> (r: Option<u32>)
    ensures
        r == parse_dec(v@),
{
    if v.len() == 0 {
        return None;
    }
    if v.len() > 1 && v[0] == '0' {
        return None;
    }
    let mut acc: u64 = 0;
    let mut i: usize = 0;
    while i < v.len()
        invariant
            i <= v@.len(),
            forall|j: int| 0 <= j < i ==> is_digit(v@[j]),
            acc == dec_val(v@.take(i as int)),
            acc <= u32::MAX,
        decreases v@.len() - i,
    {
        let c = v[i];
        let d: u64 = match c {
            '0' => 0,
            '1' => 1,
            '2' => 2,
            '3' => 3,
            '4' => 4,
            '5' => 5,
            '6' => 6,
            '7' => 7,
            '8' => 8,
            '9' => 9,
            _ => 10,
        };
        if d == 10 {
            assert(!is_digit(v@[i as int]));
            return None;
        }
        assert(d == digit_val(v@[i as int]));
        let next: u64 = acc * 10 + d;
        assert(v@.take(i + 1 as int).drop_last() =~= v@.take(i as int));
        assert(dec_val(v@.take(i + 1 as int)) == dec_val(v@.take(i as int)) * 10 + digit_val(v@[i as int]));
        if next > u32::MAX as u64 {
            assert(dec_val(v@.take(i + 1 as int)) > u32::MAX);
            assert(dec_val(v@) > u32::MAX) by {
                lemma_dec_val_monotone(v@, i + 1 as int);
            }
            return None;
        }
        acc = next;
        i = i + 1;
    }
    assert(v@.take(v@.len() as int) =~= v@);
    Some(acc as u32)
}

// //////////////// //
// String escaping   //
// //////////////// //

/// The escape of one character inside a double-quoted scalar.
pub open spec fn esc_char(c: char) -> Seq<char> {
    if c == '\\' { seq!['\\', '\\'] }
    else if c == '"' { seq!['\\', '"'] }
    else if c == '\n' { seq!['\\', 'n'] }
    else if c == '\r' { seq!['\\', 'r'] }
    else { seq![c] }
}

/// The escaped body of a double-quoted scalar.
pub open spec fn esc(s: Seq<char>) -> Seq<char>
    decreases s.len(),
{
    if s.len() == 0 {
        Seq::<char>::empty()
    } else {
        esc_char(s[0]) + esc(s.drop_first())
    }
}

/// Unescape a double-quoted scalar body, rejecting raw quotes, raw line
/// breaks, and unknown escape sequences. Beyond the sequences `esc`
/// writes, the tab and NUL escapes of the reference emitter are read.
pub open spec fn unesc(s: Seq<char>) -> Option<Seq<char>>
    decreases s.len(),
{
    if s.len() == 0 {
        Some(Seq::<char>::empty())
    } else if s[0] == '\\' {
        if s.len() >= 2 {
            let c = if s[1] == '\\' { Some('\\') }
                else if s[1] == '"' { Some('"') }
                else if s[1] == 'n' { Some('\n') }
                else if s[1] == 'r' { Some('\r') }
                else if s[1] == 't' { Some('\t') }
                else if s[1] == '0' { Some('\0') }
                else { None };
            match c {
                Some(ch) => match unesc(s.skip(2)) {
                    Some(t) => Some(seq![ch] + t),
                    None => None,
                },
                None => None,
            }
        } else {
            None
        }
    } else if s[0] == '"' || s[0] == '\n' || s[0] == '\r' {
        None
    } else {
        match unesc(s.drop_first()) {
            Some(t) => Some(seq![s[0]] + t),
            None => None,
        }
    }
}

/// Escaping distributes over concatenation.
pub proof fn lemma_esc_append(a: Seq<char>, b: Seq<char>)
    ensures
        esc(a + b) == esc(a) + esc(b),
    decreases a.len(),
{
    if a.len() == 0 {
        assert(a + b =~= b);
        assert(esc(a) + esc(b) =~= esc(b));
    } else {
        assert((a + b).drop_first() =~= a.drop_first() + b);
        lemma_esc_append(a.drop_first(), b);
        assert(esc(a + b) == esc_char(a[0]) + (esc(a.drop_first()) + esc(b)));
        assert(esc_char(a[0]) + (esc(a.drop_first()) + esc(b))
            =~= (esc_char(a[0]) + esc(a.drop_first())) + esc(b));
    }
}

/// An escaped body never holds a raw line break.
pub proof fn lemma_esc_no_nl(s: Seq<char>)
    ensures
        forall|i: int| 0 <= i < esc(s).len() ==> #[trigger] esc(s)[i] != '\n',
    decreases s.len(),
{
    if s.len() > 0 {
        lemma_esc_no_nl(s.drop_first());
        let c = s[0];
        let e0 = esc_char(c);
        assert(forall|i: int| 0 <= i < e0.len() ==> #[trigger] e0[i] != '\n') by {
            if c == '\\' {
                assert(e0 == seq!['\\', '\\']);
            } else if c == '"' {
                assert(e0 == seq!['\\', '"']);
            } else if c == '\n' {
                assert(e0 == seq!['\\', 'n']);
            } else if c == '\r' {
                assert(e0 == seq!['\\', 'r']);
            } else {
                assert(e0 == seq![c]);
            }
        }
        assert forall|i: int| 0 <= i < esc(s).len()
            implies #[trigger] esc(s)[i] != '\n' by {
            assert(esc(s) == e0 + esc(s.drop_first()));
            if i < e0.len() {
                assert(esc(s)[i] == e0[i]);
            } else {
                assert(esc(s)[i] == esc(s.drop_first())[i - e0.len()]);
            }
        }
    }
}

/// Unescaping inverts escaping.
pub proof fn lemma_unesc_esc(s: Seq<char>)
    ensures
        unesc(esc(s)) == Some(s),
    decreases s.len(),
{
    if s.len() == 0 {
        assert(esc(s) =~= Seq::<char>::empty());
    } else {
        lemma_unesc_esc(s.drop_first());
        let c = s[0];
        let e = esc(s);
        assert(e == esc_char(c) + esc(s.drop_first()));
        if c == '\\' || c == '"' || c == '\n' || c == '\r' {
            assert(esc_char(c).len() == 2);
            assert(e[0] == '\\');
            assert(e.len() >= 2);
            assert(e.skip(2) =~= esc(s.drop_first()));
            assert(unesc(e) == Some(seq![c] + s.drop_first()));
            assert(seq![c] + s.drop_first() =~= s);
        } else {
            assert(esc_char(c) == seq![c]);
            assert(e[0] == c);
            assert(e.drop_first() =~= esc(s.drop_first()));
            assert(unesc(e) == Some(seq![c] + s.drop_first()));
            assert(seq![c] + s.drop_first() =~= s);
        }
    }
}

/// Append the escaped body of `s` to `out`.
pub fn push_esc(out: &mut Vec<char>, s: &Vec<char>)
    ensures
        final(out)@ == old(out)@ + esc(s@),
{
    let mut i: usize = 0;
    while i < s.len()
        invariant
            i <= s@.len(),
            out@ == old(out)@ + esc(s@.take(i as int)),
        decreases s@.len() - i,
    {
        let c = s[i];
        if c == '\\' {
            out.push('\\');
            out.push('\\');
        } else if c == '"' {
            out.push('\\');
            out.push('"');
        } else if c == '\n' {
            out.push('\\');
            out.push('n');
        } else if c == '\r' {
            out.push('\\');
            out.push('r');
        } else {
            out.push(c);
        }
        proof {
            lemma_esc_append(s@.take(i as int), seq![s@[i as int]]);
            assert(s@.take(i + 1 as int) =~= s@.take(i as int) + seq![s@[i as int]]);
            assert(seq![s@[i as int]].drop_first() =~= Seq::<char>::empty());
            assert(esc(seq![s@[i as int]])
                == esc_char(s@[i as int]) + esc(Seq::<char>::empty()));
            assert(esc_char(s@[i as int]) + Seq::<char>::empty() =~= esc_char(s@[i as int]));
            assert(out@ =~= old(out)@ + esc(s@.take(i + 1 as int)));
        }
        i = i + 1;
    }
    proof {
        assert(s@.take(s@.len() as int) =~= s@);
    }
}

/// Prefix every value inside an optional suffix.
pub open spec fn opt_prepend(p: Seq<char>, o: Option<Seq<char>>) -> Option<Seq<char>> {
    match o {
        Some(t) => Some(p + t),
        None => None,
    }
}

proof fn lemma_opt_prepend_empty(o: Option<Seq<char>>)
    ensures
        opt_prepend(Seq::<char>::empty(), o) == o,
{
    match o {
        Some(t) => {
            assert(Seq::<char>::empty() + t =~= t);
        },
        None => {},
    }
}

proof fn lemma_opt_prepend_assoc(a: Seq<char>, b: Seq<char>, o: Option<Seq<char>>)
    ensures
        opt_prepend(a, opt_prepend(b, o)) == opt_prepend(a + b, o),
{
    match o {
        Some(t) => {
            assert(a + (b + t) =~= (a + b) + t);
        },
        None => {},
    }
}

/// Unescape a quoted-scalar body; mirrors `unesc`.
pub fn unesc_chars(v: &Vec<char>) -> (r: Option<Vec<char>>)
    ensures
        match r {
            Some(u) => unesc(v@) == Some(u@),
            None => unesc(v@) is None,
        },
{
    let mut out: Vec<char> = Vec::new();
    let mut i: usize = 0;
    proof {
        assert(v@.skip(0) =~= v@);
        lemma_opt_prepend_empty(unesc(v@));
    }
    while i < v.len()
        invariant
            i <= v@.len(),
            unesc(v@) == opt_prepend(out@, unesc(v@.skip(i as int))),
        decreases v@.len() - i,
    {
        let ghost rem = v@.skip(i as int);
        assert(rem.len() == v@.len() - i);
        assert(rem[0] == v@[i as int]);
        let c = v[i];
        if c == '\\' {
            if i + 1 >= v.len() {
                assert(unesc(rem) is None);
                return None;
            }
            let e = v[i + 1];
            assert(rem[1] == v@[i + 1]);
            let u: char = if e == '\\' { '\\' }
                else if e == '"' { '"' }
                else if e == 'n' { '\n' }
                else if e == 'r' { '\r' }
                else if e == 't' { '\t' }
                else if e == '0' { '\0' }
                else {
                    assert(unesc(rem) is None);
                    return None;
                };
            proof {
                assert(rem.skip(2) =~= v@.skip(i + 2 as int));
                assert(unesc(rem) == opt_prepend(seq![u], unesc(v@.skip(i + 2 as int))));
                lemma_opt_prepend_assoc(out@, seq![u], unesc(v@.skip(i + 2 as int)));
                assert(out@ + seq![u] =~= out@.push(u));
            }
            out.push(u);
            i = i + 2;
        } else if c == '"' || c == '\n' || c == '\r' {
            assert(unesc(rem) is None);
            return None;
        } else {
            proof {
                assert(rem.drop_first() =~= v@.skip(i + 1 as int));
                assert(unesc(rem) == opt_prepend(seq![c], unesc(v@.skip(i + 1 as int))));
                lemma_opt_prepend_assoc(out@, seq![c], unesc(v@.skip(i + 1 as int)));
                assert(out@ + seq![c] =~= out@.push(c));
            }
            out.push(c);
            i = i + 1;
        }
    }
    proof {
        assert(v@.skip(v@.len() as int) =~= Seq::<char>::empty());
        assert(unesc(v@.skip(v@.len() as int)) == Some(Seq::<char>::empty()));
        assert(out@ + Seq::<char>::empty() =~= out@);
    }
    Some(out)
}

// /////////////// //
// Line splitting  //
// /////////////// //

/// The text holds no line break.
pub open spec fn no_nl(s: Seq<char>) -> bool {
    forall|j: int| 0 <= j < s.len() ==> s[j] != '\n'
}

/// Index of the first line break, or `-1` if there is none.
pub open spec fn first_nl(s: Seq<char>) -> int
    decreases s.len(),
{
    if s.len() == 0 {
        -1
    } else if s[0] == '\n' {
        0
    } else {
        let r = first_nl(s.drop_first());
        if r < 0 { -1 } else { r + 1 }
    }
}

/// Split off the first line: the text before the first line break, and
/// everything after it. The remainder's length is clipped so that it is
/// visibly shorter than the input, which lets parsers recurse on it.
pub open spec fn take_line(s: Seq<char>) -> Option<(Seq<char>, Seq<char>)> {
    let k = first_nl(s);
    if k < 0 {
        None
    } else {
        let j = if k + 1 <= s.len() { k + 1 } else { s.len() as int };
        Some((s.take(k), s.skip(j)))
    }
}

proof fn lemma_first_nl_bounds(s: Seq<char>)
    ensures
        first_nl(s) < s.len(),
        first_nl(s) >= 0 ==> s[first_nl(s)] == '\n',
        forall|j: int| 0 <= j < s.len() && (j < first_nl(s) || first_nl(s) < 0)
            ==> s[j] != '\n',
    decreases s.len(),
{
    if s.len() > 0 && s[0] != '\n' {
        lemma_first_nl_bounds(s.drop_first());
        assert forall|j: int| 0 <= j < s.len() && (j < first_nl(s) || first_nl(s) < 0)
            implies s[j] != '\n' by {
            if j >= 1 {
                assert(s[j] == s.drop_first()[j - 1]);
            }
        }
    }
}

/// `first_nl` is exactly the first index holding a line break.
proof fn lemma_first_nl_is(s: Seq<char>, k: int)
    requires
        0 <= k < s.len(),
        s[k] == '\n',
        forall|j: int| 0 <= j < k ==> s[j] != '\n',
    ensures
        first_nl(s) == k,
    decreases k,
{
    if k > 0 {
        assert(s[0] != '\n');
        assert(s.drop_first()[k - 1] == '\n');
        assert(forall|j: int| 0 <= j < k - 1 ==> #[trigger] s.drop_first()[j] != '\n');
        lemma_first_nl_is(s.drop_first(), k - 1);
    }
}

/// Peeling a clean line off a line-break-joined text.
pub proof fn lemma_take_line_of(line: Seq<char>, rest: Seq<char>)
    requires
        forall|j: int| 0 <= j < line.len() ==> line[j] != '\n',
    ensures
        take_line(line + seq!['\n'] + rest) == Some((line, rest)),
{
    let s = line + seq!['\n'] + rest;
    assert(s[line.len() as int] == '\n');
    assert(forall|j: int| 0 <= j < line.len() ==> s[j] == line[j]);
    lemma_first_nl_is(s, line.len() as int);
    assert(s.take(line.len() as int) =~= line);
    assert(s.skip(line.len() as int + 1) =~= rest);
}

/// Find the end of the line starting at `pos`: the index of the next line
/// break, if any.
pub fn find_line_end(v: &Vec<char>, pos: usize) -> (r: Option<usize>)
    requires
        pos <= v@.len(),
    ensures
        match r {
            Some(k) => pos <= k < v@.len() && v@[k as int] == '\n'
                && (forall|j: int| pos <= j < k ==> v@[j] != '\n')
                && first_nl(v@.skip(pos as int)) == k - pos,
            None => first_nl(v@.skip(pos as int)) < 0,
        },
{
    let mut k: usize = pos;
    while k < v.len()
        invariant
            pos <= k <= v@.len(),
            forall|j: int| pos <= j < k ==> v@[j] != '\n',
        decreases v@.len() - k,
    {
        if v[k] == '\n' {
            proof {
                let rem = v@.skip(pos as int);
                assert(rem[k - pos] == v@[k as int]);
                assert(forall|j: int| 0 <= j < k - pos ==> rem[j] == v@[j + pos] && v@[j + pos] != '\n');
                lemma_first_nl_is(rem, k - pos);
            }
            return Some(k);
        }
        k = k + 1;
    }
    proof {
        let rem = v@.skip(pos as int);
        assert(forall|j: int| 0 <= j < rem.len() ==> rem[j] == v@[j + pos] && v@[j + pos] != '\n');
        lemma_first_nl_bounds(rem);
    }
    None
}

/// A positive digit-string value only grows as more characters follow.
proof fn lemma_dec_val_monotone(s: Seq<char>, k: int)
    requires
        0 <= k <= s.len(),
        dec_val(s.take(k)) >= 1,
    ensures
        dec_val(s) >= dec_val(s.take(k)),
    decreases s.len() - k,
{
    if k == s.len() {
        assert(s.take(k) =~= s);
    } else {
        assert(s.take(k + 1).drop_last() =~= s.take(k));
        assert(dec_val(s.take(k + 1)) == dec_val(s.take(k)) * 10 + digit_val(s.take(k + 1).last()));
        let a = dec_val(s.take(k));
        assert(digit_val(s.take(k + 1).last()) >= -1);
        assert(a * 10 - 1 >= a) by (nonlinear_arith)
            requires a >= 1;
        lemma_dec_val_monotone(s, k + 1);
    }
}

} // verus!
