use vstd::prelude::*;
use crate::error::ParseIntError;

verus! {

/// The characters of `s`, in order.
pub fn chars_of(s: &str) -> (v: Vec<char>)
    ensures
        v@ == s@,
{
    let mut v: Vec<char> = Vec::new();
    for c in it: s.chars()
        invariant
            v@ == it.seq().take(it.index() as int),
            it.seq() == s@,
    {
        v.push(c);
    }
    v
}

/// Whether `c` is one of the digits `0` to `9`.
pub open spec fn is_digit(c: char) -> bool {
    '0' <= c && c <= '9'
}

/// The number that a digit denotes.
pub open spec fn digit_value(c: char) -> nat {
    (c as u32 - '0' as u32) as nat
}

/// The digit that denotes a number below ten.
pub open spec fn digit_char(d: nat) -> char {
    if d == 0 {
        '0'
    } else if d == 1 {
        '1'
    } else if d == 2 {
        '2'
    } else if d == 3 {
        '3'
    } else if d == 4 {
        '4'
    } else if d == 5 {
        '5'
    } else if d == 6 {
        '6'
    } else if d == 7 {
        '7'
    } else if d == 8 {
        '8'
    } else {
        '9'
    }
}

/// The decimal numeral of `n`, without sign or leading zeros.
pub open spec fn dec(n: nat) -> Seq<char>
    decreases n,
{
    if n < 10 {
        seq![digit_char(n)]
    } else {
        dec(n / 10).push(digit_char(n % 10))
    }
}

/// The number that a run of digits denotes; leading zeros count for nothing.
pub open spec fn digits_value(s: Seq<char>) -> nat
    decreases s.len(),
{
    if s.len() == 0 {
        0
    } else {
        digits_value(s.drop_last()) * 10 + digit_value(s.last())
    }
}

/// Whether the text holds digits only.
pub open spec fn all_digits(s: Seq<char>) -> bool {
    forall|i: int| 0 <= i < s.len() ==> is_digit(#[trigger] s[i])
}

/// What is left of a numeral once one leading `+` is taken off.
pub open spec fn unsigned_part(s: Seq<char>) -> Seq<char> {
    if s.len() > 0 && s[0] == '+' {
        s.drop_first()
    } else {
        s
    }
}

/// Reading of a decimal numeral into a type whose largest value is `max`:
/// one optional `+`, then one digit or more, and nothing else.
pub open spec fn parse_dec(s: Seq<char>, max: nat) -> Result<nat, ParseIntError> {
    if s.len() == 0 {
        Err(ParseIntError::Empty)
    } else if unsigned_part(s).len() == 0 || !all_digits(unsigned_part(s)) {
        Err(ParseIntError::InvalidDigit)
    } else if digits_value(unsigned_part(s)) > max {
        Err(ParseIntError::PosOverflow)
    } else {
        Ok(digits_value(unsigned_part(s)))
    }
}

fn digit_str(d: u64) -> (r: &'static str)
    requires
        d < 10,
    ensures
        r@ == seq![digit_char(d as nat)],
{
    proof {
        reveal_strlit("0");
        reveal_strlit("1");
        reveal_strlit("2");
        reveal_strlit("3");
        reveal_strlit("4");
        reveal_strlit("5");
        reveal_strlit("6");
        reveal_strlit("7");
        reveal_strlit("8");
        reveal_strlit("9");
    }
    let r = if d == 0 {
        "0"
    } else if d == 1 {
        "1"
    } else if d == 2 {
        "2"
    } else if d == 3 {
        "3"
    } else if d == 4 {
        "4"
    } else if d == 5 {
        "5"
    } else if d == 6 {
        "6"
    } else if d == 7 {
        "7"
    } else if d == 8 {
        "8"
    } else {
        "9"
    };
    assert(r@ =~= seq![digit_char(d as nat)]);
    r
}

/// Writes `n` in decimal.
pub fn u64_to_string(n: u64) -> (r: String)
    ensures
        r@ == dec(n as nat),
    decreases n,
{
    if n < 10 {
        String::from_str(digit_str(n))
    } else {
        let head = u64_to_string(n / 10);
        let r = head.concat(digit_str(n % 10));
        assert(r@ =~= dec(n as nat));
        r
    }
}

/// Writes `n` in decimal.
pub fn usize_to_string(n: usize) -> (r: String)
    ensures
        r@ == dec(n as nat),
{
    u64_to_string(n as u64)
}

/// A numeral is not empty, holds digits only, and denotes its number.
pub proof fn lemma_dec_digits(n: nat)
    ensures
        dec(n).len() > 0,
        all_digits(dec(n)),
        digits_value(dec(n)) == n,
    decreases n,
{
    if n < 10 {
        assert(dec(n).drop_last() =~= Seq::<char>::empty());
        assert(digits_value(dec(n).drop_last()) == 0);
    } else {
        lemma_dec_digits(n / 10);
        assert(dec(n).drop_last() =~= dec(n / 10));
    }
}

/// The digits at the head of a run denote no more than the whole run.
pub proof fn lemma_digits_value_prefix(s: Seq<char>, k: int)
    requires
        0 <= k <= s.len(),
    ensures
        digits_value(s.take(k)) <= digits_value(s),
    decreases s.len() - k,
{
    if k < s.len() {
        lemma_digits_value_prefix(s, k + 1);
        assert(s.take(k + 1).drop_last() =~= s.take(k));
    } else {
        assert(s.take(k) =~= s);
    }
}

/// Reading a numeral gives back the number it was written from.
pub proof fn lemma_parse_dec_of_dec(n: nat, max: nat)
    requires
        n <= max,
    ensures
        parse_dec(dec(n), max) == Ok::<nat, ParseIntError>(n),
{
    lemma_dec_digits(n);
    assert(is_digit(dec(n)[0]));
}

/// Reads a decimal numeral whose value may not exceed `max`.
pub fn parse_bounded(v: &Vec<char>, max: u64) -> (r: Result<u64, ParseIntError>)
    ensures
        match r {
            Ok(n) => parse_dec(v@, max as nat) == Ok::<nat, ParseIntError>(n as nat),
            Err(e) => parse_dec(v@, max as nat) == Err::<nat, ParseIntError>(e),
        },
{
    let n = v.len();
    if n == 0 {
        return Err(ParseIntError::Empty);
    }
    let start: usize = if v[0] == '+' {
        1
    } else {
        0
    };
    let ghost body = unsigned_part(v@);
    assert(body =~= v@.skip(start as int));
    if start == n {
        return Err(ParseIntError::InvalidDigit);
    }
    let mut i: usize = start;
    while i < n
        invariant
            start <= i <= n,
            n == v.len(),
            v@.len() > 0,
            body == unsigned_part(v@),
            body == v@.skip(start as int),
            forall|j: int| 0 <= j < i - start ==> is_digit(#[trigger] body[j]),
        decreases n - i,
    {
        let c = v[i];
        if !(c >= '0' && c <= '9') {
            assert(!is_digit(body[i - start]));
            return Err(ParseIntError::InvalidDigit);
        }
        i += 1;
    }
    assert(all_digits(body));
    let mut acc: u64 = 0;
    i = start;
    assert(body.take(0) =~= Seq::<char>::empty());
    while i < n
        invariant
            start <= i <= n,
            n == v.len(),
            v@.len() > 0,
            body == unsigned_part(v@),
            body == v@.skip(start as int),
            all_digits(body),
            acc == digits_value(body.take(i - start)),
            acc <= max,
        decreases n - i,
    {
        let c = v[i];
        assert(is_digit(body[i - start]));
        let d: u64 = (c as u32 - '0' as u32) as u64;
        proof {
            assert(body.take(i - start + 1).drop_last() =~= body.take(i - start));
            assert(digits_value(body.take(i - start + 1)) == acc * 10 + d);
            lemma_digits_value_prefix(body, i - start + 1);
        }
        if d > max || acc > (max - d) / 10 {
            return Err(ParseIntError::PosOverflow);
        }
        acc = acc * 10 + d;
        i += 1;
    }
    assert(body.take(n - start) =~= body);
    Ok(acc)
}

/// Reads a decimal numeral as a `u64`.
pub fn parse_u64(s: &str) -> (r: Result<u64, ParseIntError>)
    ensures
        match r {
            Ok(n) => parse_dec(s@, u64::MAX as nat) == Ok::<nat, ParseIntError>(n as nat),
            Err(e) => parse_dec(s@, u64::MAX as nat) == Err::<nat, ParseIntError>(e),
        },
{
    let v = chars_of(s);
    parse_bounded(&v, u64::MAX)
}

/// Reads a decimal numeral as a `u32`.
pub fn parse_u32(s: &str) -> (r: Result<u32, ParseIntError>)
    ensures
        match r {
            Ok(n) => parse_dec(s@, u32::MAX as nat) == Ok::<nat, ParseIntError>(n as nat),
            Err(e) => parse_dec(s@, u32::MAX as nat) == Err::<nat, ParseIntError>(e),
        },
{
    let v = chars_of(s);
    match parse_bounded(&v, u32::MAX as u64) {
        Ok(n) => Ok(n as u32),
        Err(e) => Err(e),
    }
}

/// Reads a decimal numeral as a `usize`.
pub fn parse_usize(s: &str) -> (r: Result<usize, ParseIntError>)
    ensures
        match r {
            Ok(n) => parse_dec(s@, usize::MAX as nat) == Ok::<nat, ParseIntError>(n as nat),
            Err(e) => parse_dec(s@, usize::MAX as nat) == Err::<nat, ParseIntError>(e),
        },
{
    let v = chars_of(s);
    match parse_bounded(&v, usize::MAX as u64) {
        Ok(n) => Ok(n as usize),
        Err(e) => Err(e),
    }
}

/// The place of the first `c` in `s`, or the length of `s` where it holds none.
pub open spec fn find_char(s: Seq<char>, c: char) -> int
    decreases s.len(),
{
    if s.len() == 0 {
        0
    } else if s[0] == c {
        0
    } else {
        1 + find_char(s.drop_first(), c)
    }
}

/// Whether `c` occurs in `s`.
pub open spec fn has_char(s: Seq<char>, c: char) -> bool {
    exists|i: int| 0 <= i < s.len() && s[i] == c
}

/// The first place of `c` lies in the text or at its end, `c` does not occur before it,
/// and it is below the end exactly where `c` occurs at all.
pub proof fn lemma_find_char(s: Seq<char>, c: char)
    ensures
        0 <= find_char(s, c) <= s.len(),
        forall|j: int| 0 <= j < find_char(s, c) ==> s[j] != c,
        find_char(s, c) < s.len() ==> s[find_char(s, c)] == c,
        find_char(s, c) < s.len() <==> has_char(s, c),
    decreases s.len(),
{
    if s.len() > 0 && s[0] != c {
        let t = s.drop_first();
        lemma_find_char(t, c);
        assert forall|j: int| 0 <= j < find_char(s, c) implies s[j] != c by {
            if j > 0 {
                assert(s[j] == t[j - 1]);
            }
        }
        if has_char(s, c) {
            let i = choose|i: int| 0 <= i < s.len() && s[i] == c;
            assert(t[i - 1] == c);
        }
        if find_char(s, c) < s.len() {
            assert(s[find_char(s, c)] == t[find_char(t, c)]);
        }
    }
}

/// The place of the first `c` is the only one that holds `c` with none before it.
pub proof fn lemma_find_char_is(s: Seq<char>, c: char, k: int)
    requires
        0 <= k <= s.len(),
        forall|j: int| 0 <= j < k ==> s[j] != c,
        k < s.len() ==> s[k] == c,
    ensures
        find_char(s, c) == k,
{
    lemma_find_char(s, c);
    let f = find_char(s, c);
    if f < k {
        assert(s[f] == c);
    } else if k < f {
        assert(s[k] == c);
    }
}

/// The pieces of `s` between the occurrences of `sep`; there is always one piece at least.
pub open spec fn split(s: Seq<char>, sep: char) -> Seq<Seq<char>>
    decreases s.len(),
{
    let i = find_char(s, sep);
    if 0 <= i < s.len() {
        seq![s.take(i)] + split(s.skip(i + 1), sep)
    } else {
        seq![s]
    }
}

/// The pieces put together again, with `sep` between each two.
pub open spec fn join(parts: Seq<Seq<char>>, sep: char) -> Seq<char>
    decreases parts.len(),
{
    if parts.len() == 0 {
        Seq::empty()
    } else if parts.len() == 1 {
        parts[0]
    } else {
        parts[0] + seq![sep] + join(parts.drop_first(), sep)
    }
}

/// There is a piece at least, no piece holds the separator, the first piece is what
/// stands before the first separator, and there is one piece only where there is no
/// separator.
pub proof fn lemma_split_shape(s: Seq<char>, sep: char)
    ensures
        split(s, sep).len() >= 1,
        forall|i: int| 0 <= i < split(s, sep).len() ==> !has_char(#[trigger] split(s, sep)[i], sep),
        split(s, sep)[0] == s.take(find_char(s, sep)),
        split(s, sep).len() == 1 <==> !has_char(s, sep),
    decreases s.len(),
{
    lemma_find_char(s, sep);
    let i = find_char(s, sep);
    if 0 <= i < s.len() {
        let rest = split(s.skip(i + 1), sep);
        lemma_split_shape(s.skip(i + 1), sep);
        assert forall|k: int| 0 <= k < split(s, sep).len() implies !has_char(
            #[trigger] split(s, sep)[k],
            sep,
        ) by {
            if k == 0 {
                if has_char(s.take(i), sep) {
                    let j = choose|j: int| 0 <= j < s.take(i).len() && s.take(i)[j] == sep;
                    assert(s[j] == sep);
                }
            } else {
                assert(split(s, sep)[k] == rest[k - 1]);
            }
        }
    } else {
        assert(s.take(i) =~= s);
    }
}

/// Splitting what was joined gives the pieces back, where no piece holds the separator.
pub proof fn lemma_split_join(parts: Seq<Seq<char>>, sep: char)
    requires
        parts.len() >= 1,
        forall|i: int| 0 <= i < parts.len() ==> !has_char(#[trigger] parts[i], sep),
    ensures
        split(join(parts, sep), sep) == parts,
    decreases parts.len(),
{
    let s = join(parts, sep);
    if parts.len() == 1 {
        lemma_find_char(s, sep);
        assert(split(s, sep) =~= parts);
    } else {
        let rest = parts.drop_first();
        assert forall|i: int| 0 <= i < rest.len() implies !has_char(#[trigger] rest[i], sep) by {
            assert(rest[i] == parts[i + 1]);
        }
        lemma_split_join(rest, sep);
        let k = parts[0].len() as int;
        assert forall|j: int| 0 <= j < k implies s[j] != sep by {
            if s[j] == sep {
                assert(parts[0][j] == sep);
            }
        }
        lemma_find_char_is(s, sep, k);
        assert(s.take(k) =~= parts[0]);
        assert(s.skip(k + 1) =~= join(rest, sep));
        assert(split(s, sep) =~= parts);
    }
}

/// Joining one more piece on the right.
pub proof fn lemma_join_push(parts: Seq<Seq<char>>, last: Seq<char>, sep: char)
    requires
        parts.len() >= 1,
    ensures
        join(parts.push(last), sep) == join(parts, sep) + seq![sep] + last,
    decreases parts.len(),
{
    let all = parts.push(last);
    if parts.len() == 1 {
        assert(all.drop_first() =~= seq![last]);
        assert(join(all.drop_first(), sep) == last);
    } else {
        lemma_join_push(parts.drop_first(), last, sep);
        assert(all.drop_first() =~= parts.drop_first().push(last));
        assert(join(all, sep) =~= join(parts, sep) + seq![sep] + last);
    }
}

/// The texts that a vector of strings holds.
pub open spec fn views(v: Seq<String>) -> Seq<Seq<char>> {
    Seq::new(v.len(), |i: int| v[i]@)
}

/// Cuts `s` at every `sep`.
pub fn split_str(s: &str, sep: char) -> (parts: Vec<String>)
    ensures
        views(parts@) == split(s@, sep),
{
    let cs = chars_of(s);
    let n = cs.len();
    let mut parts: Vec<String> = Vec::new();
    let mut start: usize = 0;
    let mut i: usize = 0;
    assert(s@.skip(0) =~= s@);
    assert(views(parts@) + split(s@, sep) =~= split(s@, sep));
    while i < n
        invariant
            cs@ == s@,
            n == cs.len(),
            start <= i <= n,
            forall|j: int| start <= j < i ==> cs@[j] != sep,
            split(s@, sep) == views(parts@) + split(s@.skip(start as int), sep),
        decreases n - i,
    {
        if cs[i] == sep {
            let piece = s.substring_char(start, i);
            let ghost before = views(parts@);
            let ghost t = s@.skip(start as int);
            proof {
                lemma_find_char_is(t, sep, i - start);
                assert(t.take(i - start) =~= s@.subrange(start as int, i as int));
                assert(t.skip(i - start + 1) =~= s@.skip(i + 1));
            }
            parts.push(String::from_str(piece));
            assert(views(parts@) =~= before.push(piece@));
            assert(views(parts@) + split(s@.skip(i + 1), sep) =~= before + split(t, sep));
            start = i + 1;
        }
        i += 1;
    }
    let piece = s.substring_char(start, n);
    let ghost before = views(parts@);
    let ghost t = s@.skip(start as int);
    proof {
        lemma_find_char_is(t, sep, n - start);
        assert(t =~= s@.subrange(start as int, n as int));
    }
    parts.push(String::from_str(piece));
    assert(views(parts@) =~= before.push(piece@));
    assert(views(parts@) =~= before + split(t, sep));
    parts
}

/// Whether `s` begins with `p`.
pub open spec fn starts_with(s: Seq<char>, p: Seq<char>) -> bool {
    p.len() <= s.len() && s.take(p.len() as int) == p
}

/// Whether the text begins with `p`.
pub fn has_prefix(cs: &Vec<char>, p: &str) -> (r: bool)
    ensures
        r == starts_with(cs@, p@),
{
    let pc = chars_of(p);
    if pc.len() > cs.len() {
        return false;
    }
    let mut i: usize = 0;
    while i < pc.len()
        invariant
            pc@ == p@,
            pc.len() <= cs.len(),
            i <= pc.len(),
            forall|j: int| 0 <= j < i ==> cs@[j] == pc@[j],
        decreases pc.len() - i,
    {
        if cs[i] != pc[i] {
            assert(cs@.take(pc.len() as int)[i as int] != pc@[i as int]);
            return false;
        }
        i += 1;
    }
    assert(cs@.take(pc.len() as int) =~= pc@);
    true
}

/// Whether the text is exactly `p`.
pub fn same_text(cs: &Vec<char>, p: &str) -> (r: bool)
    ensures
        r == (cs@ == p@),
{
    let pc = chars_of(p);
    if pc.len() != cs.len() {
        return false;
    }
    let r = has_prefix(cs, p);
    assert(cs@.take(cs.len() as int) =~= cs@);
    r
}

/// `s` without its leading `p`, where it begins with `p`; `cs` holds the characters of `s`.
pub(crate) fn strip_prefix<'a>(s: &'a str, cs: &Vec<char>, p: &str) -> (r: Option<&'a str>)
    requires
        cs@ == s@,
    ensures
        match r {
            Some(t) => starts_with(s@, p@) && t@ == s@.skip(p@.len() as int),
            None => !starts_with(s@, p@),
        },
{
    if has_prefix(cs, p) {
        let k = p.unicode_len();
        let t = s.substring_char(k, cs.len());
        assert(t@ =~= s@.skip(k as int));
        Some(t)
    } else {
        None
    }
}

/// A character is in a concatenation where it is in one of the two parts.
pub proof fn lemma_has_char_concat(a: Seq<char>, b: Seq<char>, c: char)
    ensures
        has_char(a + b, c) <==> has_char(a, c) || has_char(b, c),
{
    let ab = a + b;
    if has_char(ab, c) {
        let i = choose|i: int| 0 <= i < ab.len() && ab[i] == c;
        if i < a.len() {
            assert(a[i] == c);
        } else {
            assert(b[i - a.len()] == c);
        }
    }
    if has_char(a, c) {
        let i = choose|i: int| 0 <= i < a.len() && a[i] == c;
        assert(ab[i] == c);
    }
    if has_char(b, c) {
        let i = choose|i: int| 0 <= i < b.len() && b[i] == c;
        assert(ab[a.len() + i] == c);
    }
}

/// A text of one character holds that character and no other.
pub proof fn lemma_has_char_one(d: char, c: char)
    ensures
        has_char(seq![d], c) <==> d == c,
{
    if has_char(seq![d], c) {
        let i = choose|i: int| 0 <= i < seq![d].len() && seq![d][i] == c;
        assert(seq![d][i] == d);
    }
    if d == c {
        assert(seq![d][0] == c);
    }
}

/// A character that is in no piece and is not the separator is not in what they are joined to.
pub proof fn lemma_join_has_no(parts: Seq<Seq<char>>, sep: char, c: char)
    requires
        c != sep,
        forall|i: int| 0 <= i < parts.len() ==> !has_char(#[trigger] parts[i], c),
    ensures
        !has_char(join(parts, sep), c),
    decreases parts.len(),
{
    if parts.len() == 0 {
        assert(join(parts, sep).len() == 0);
    } else if parts.len() == 1 {
    } else {
        let rest = parts.drop_first();
        assert forall|i: int| 0 <= i < rest.len() implies !has_char(#[trigger] rest[i], c) by {
            assert(rest[i] == parts[i + 1]);
        }
        lemma_join_has_no(rest, sep, c);
        lemma_has_char_one(sep, c);
        lemma_has_char_concat(parts[0], seq![sep], c);
        lemma_has_char_concat(parts[0] + seq![sep], join(rest, sep), c);
    }
}

/// What follows the first `p.len()` characters of `s`.
pub open spec fn after(s: Seq<char>, p: Seq<char>) -> Seq<char> {
    s.skip(p.len() as int)
}

/// A text begins with what it was put together from first.
pub proof fn lemma_starts_with_concat(p: Seq<char>, rest: Seq<char>)
    ensures
        starts_with(p + rest, p),
        after(p + rest, p) == rest,
{
    assert((p + rest).take(p.len() as int) =~= p);
    assert((p + rest).skip(p.len() as int) =~= rest);
}

/// A text that differs from `p` in one place of `p`, or ends before it, neither is `p`
/// nor begins with it.
pub proof fn lemma_differs_at(s: Seq<char>, p: Seq<char>, k: int)
    requires
        0 <= k < p.len(),
        k < s.len() ==> s[k] != p[k],
    ensures
        !starts_with(s, p),
        s != p,
{
    if starts_with(s, p) {
        assert(s.take(p.len() as int)[k] == s[k]);
    }
}

/// Two pieces joined.
pub proof fn lemma_join2(a: Seq<char>, b: Seq<char>, sep: char)
    ensures
        join(seq![a, b], sep) == a + seq![sep] + b,
{
    assert(seq![a, b] =~= seq![a].push(b));
    lemma_join_push(seq![a], b, sep);
}

/// Three pieces joined.
pub proof fn lemma_join3(a: Seq<char>, b: Seq<char>, c: Seq<char>, sep: char)
    ensures
        join(seq![a, b, c], sep) == a + seq![sep] + b + seq![sep] + c,
{
    lemma_join2(a, b, sep);
    assert(seq![a, b, c] =~= seq![a, b].push(c));
    lemma_join_push(seq![a, b], c, sep);
}

/// Five pieces joined.
pub proof fn lemma_join5(
    a: Seq<char>,
    b: Seq<char>,
    c: Seq<char>,
    d: Seq<char>,
    e: Seq<char>,
    sep: char,
)
    ensures
        join(seq![a, b, c, d, e], sep) == a + seq![sep] + b + seq![sep] + c + seq![sep] + d + seq![
            sep,
        ] + e,
{
    lemma_join3(a, b, c, sep);
    assert(seq![a, b, c, d] =~= seq![a, b, c].push(d));
    lemma_join_push(seq![a, b, c], d, sep);
    assert(seq![a, b, c, d, e] =~= seq![a, b, c, d].push(e));
    lemma_join_push(seq![a, b, c, d], e, sep);
}

/// A numeral holds digits only.
pub proof fn lemma_dec_has_no_char(n: nat, c: char)
    requires
        !is_digit(c),
    ensures
        !has_char(dec(n), c),
{
    lemma_dec_digits(n);
    if has_char(dec(n), c) {
        let i = choose|i: int| 0 <= i < dec(n).len() && dec(n)[i] == c;
        assert(is_digit(dec(n)[i]));
    }
}


/// The path `rel` as seen from the directory `base`: `rel` itself where it starts at
/// the root, else `base` and `rel` with one `/` between them.
pub open spec fn joined_path(base: Seq<char>, rel: Seq<char>) -> Seq<char> {
    if rel.len() > 0 && rel[0] == '/' {
        rel
    } else if base.len() == 0 || base.last() == '/' {
        base + rel
    } else {
        base + seq!['/'] + rel
    }
}

/// The path `rel` as seen from the directory `base`.
pub fn join_path(base: &str, rel: &str) -> (r: String)
    ensures
        r@ == joined_path(base@, rel@),
{
    let bs = chars_of(base);
    let rs = chars_of(rel);
    if rs.len() > 0 && rs[0] == '/' {
        String::from_str(rel)
    } else if bs.len() == 0 || bs[bs.len() - 1] == '/' {
        String::from_str(base).concat(rel)
    } else {
        proof {
            reveal_strlit("/");
        }
        let r = String::from_str(base).concat("/").concat(rel);
        assert(r@ =~= base@ + seq!['/'] + rel@);
        r
    }
}

/// The template with `with` in the place of every `{}`, read from the left.
pub open spec fn filled(template: Seq<char>, with: Seq<char>) -> Seq<char>
    decreases template.len(),
{
    if template.len() == 0 {
        Seq::empty()
    } else if template.len() >= 2 && template[0] == '{' && template[1] == '}' {
        with + filled(template.skip(2), with)
    } else {
        seq![template[0]] + filled(template.skip(1), with)
    }
}

/// Puts `with` in the place of every `{}` of the template.
pub fn fill(template: &str, with: &str) -> (r: String)
    ensures
        r@ == filled(template@, with@),
{
    let cs = chars_of(template);
    let n = cs.len();
    let mut r = String::new();
    let mut i: usize = 0;
    assert(template@.skip(0) =~= template@);
    assert(r@ + filled(template@, with@) =~= filled(template@, with@));
    while i < n
        invariant
            cs@ == template@,
            n == cs.len(),
            i <= n,
            filled(template@, with@) == r@ + filled(template@.skip(i as int), with@),
        decreases n - i,
    {
        let ghost t = template@.skip(i as int);
        let ghost before = r@;
        if i + 1 < n && cs[i] == '{' && cs[i + 1] == '}' {
            assert(t[0] == '{' && t[1] == '}');
            assert(t.skip(2) =~= template@.skip(i + 2));
            r.append(with);
            assert(r@ + filled(template@.skip(i + 2), with@) =~= before + filled(t, with@));
            i += 2;
        } else {
            assert(t.len() >= 2 ==> t[0] == cs@[i as int] && t[1] == cs@[i + 1]);
            assert(t[0] == cs@[i as int]);
            assert(t.skip(1) =~= template@.skip(i + 1));
            let piece = template.substring_char(i, i + 1);
            assert(piece@ =~= seq![t[0]]);
            r.append(piece);
            assert(r@ + filled(template@.skip(i + 1), with@) =~= before + filled(t, with@));
            i += 1;
        }
    }
    assert(filled(template@.skip(n as int), with@) =~= Seq::<char>::empty());
    assert(r@ + Seq::<char>::empty() =~= r@);
    r
}

/// Whether the two texts are the same.
pub fn str_eq(a: &str, b: &str) -> (r: bool)
    ensures
        r == (a@ == b@),
{
    let cs = chars_of(a);
    same_text(&cs, b)
}

/// The strings with `sep` between each two; `sep_str` is `sep` as a string.
pub(crate) fn join_strings(parts: &Vec<String>, sep: char, sep_str: &str) -> (r: String)
    requires
        sep_str@ == seq![sep],
    ensures
        r@ == join(views(parts@), sep),
{
    let ghost texts = views(parts@);
    let mut r = String::new();
    let mut i: usize = 0;
    assert(texts.take(0) =~= Seq::empty());
    while i < parts.len()
        invariant
            i <= parts.len(),
            sep_str@ == seq![sep],
            texts == views(parts@),
            r@ == join(texts.take(i as int), sep),
        decreases parts.len() - i,
    {
        proof {
            assert(texts.take(i + 1) =~= texts.take(i as int).push(texts[i as int]));
            if i > 0 {
                lemma_join_push(texts.take(i as int), texts[i as int], sep);
            } else {
                assert(texts.take(1) =~= seq![texts[0]]);
            }
        }
        if i > 0 {
            r.append(sep_str);
            assert(r@ =~= join(texts.take(i as int), sep) + seq![sep]);
        }
        r.append(parts[i].as_str());
        assert(r@ =~= join(texts.take(i + 1), sep));
        i += 1;
    }
    assert(texts.take(parts.len() as int) =~= texts);
    r
}

/// Whether `c` occurs in the text.
pub fn contains_char(s: &str, c: char) -> (r: bool)
    ensures
        r == has_char(s@, c),
{
    let cs = chars_of(s);
    let mut i: usize = 0;
    while i < cs.len()
        invariant
            cs@ == s@,
            i <= cs.len(),
            forall|j: int| 0 <= j < i ==> cs@[j] != c,
        decreases cs.len() - i,
    {
        if cs[i] == c {
            return true;
        }
        i += 1;
    }
    false
}

} // verus!
