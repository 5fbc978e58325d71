//! Plain-text helpers: the command parser, decimal parsing and formatting,
//! and character-level string comparisons.

use vstd::prelude::*;
use vstd::string::*;

verus! {

/// Characters the command parser treats as token separators.
pub open spec fn is_space_char(c: char) -> bool {
    c == ' ' || c == '\t' || c == '\n' || c == '\r'
}

fn is_space(c: char) -> (r: bool)
    ensures
        r == is_space_char(c),
{
    c == ' ' || c == '\t' || c == '\n' || c == '\r'
}

/// The index of the first separator at or after `i`, or the end of `s`.
pub open spec fn token_end(s: Seq<char>, i: int) -> int
    decreases s.len() - i when 0 <= i <= s.len()
{
    if i >= s.len() {
        i
    } else if is_space_char(s[i]) {
        i
    } else {
        token_end(s, i + 1)
    }
}

proof fn lemma_token_end(s: Seq<char>, i: int)
    requires
        0 <= i <= s.len(),
    ensures
        i <= token_end(s, i) <= s.len(),
        forall|j: int| i <= j < token_end(s, i) ==> !is_space_char(s[j]),
        token_end(s, i) < s.len() ==> is_space_char(s[token_end(s, i)]),
    decreases s.len() - i,
{
    if i < s.len() && !is_space_char(s[i]) {
        lemma_token_end(s, i + 1);
    }
}

/// The whitespace-delimited tokens of `s` at or after `i`, in order.
/// Runs of separators count as one separator, so no token is empty.
pub open spec fn tokens_from(s: Seq<char>, i: int) -> Seq<Seq<char>>
    decreases s.len() - i when 0 <= i <= s.len() via tokens_from_decreases
{
    if i >= s.len() {
        Seq::empty()
    } else if is_space_char(s[i]) {
        tokens_from(s, i + 1)
    } else {
        seq![s.subrange(i, token_end(s, i))] + tokens_from(s, token_end(s, i))
    }
}

#[via_fn]
proof fn tokens_from_decreases(s: Seq<char>, i: int) {
    if 0 <= i < s.len() && !is_space_char(s[i]) {
        lemma_token_end(s, i);
        assert(token_end(s, i) > i);
    }
}

/// The whitespace-delimited tokens of `s`, in order.
pub open spec fn tokens(s: Seq<char>) -> Seq<Seq<char>> {
    tokens_from(s, 0)
}

/// Text consisting only of separators has no tokens.
pub proof fn lemma_whitespace_only_has_no_tokens(s: Seq<char>)
    requires
        forall|i: int| 0 <= i < s.len() ==> is_space_char(s[i]),
    ensures
        tokens(s).len() == 0,
{
    lemma_tokens_from_all_spaces(s, 0);
}

proof fn lemma_tokens_from_all_spaces(s: Seq<char>, i: int)
    requires
        0 <= i <= s.len(),
        forall|j: int| i <= j < s.len() ==> is_space_char(s[j]),
    ensures
        tokens_from(s, i).len() == 0,
    decreases s.len() - i,
{
    if i < s.len() {
        lemma_tokens_from_all_spaces(s, i + 1);
    }
}

/// View of a sequence of owned strings.
pub open spec fn strings_view(s: Seq<String>) -> Seq<Seq<char>> {
    s.map(|i: int, t: String| t@)
}

/// Splits message text into a command token and argument tokens.
///
/// Runs of whitespace act as one separator and leading or trailing
/// whitespace is discarded, so the input parses to `None` exactly when it
/// holds no token at all.
pub fn parse_command(command: &str) -> (r: Option<(String, Vec<String>)>)
    ensures
        match r {
            None => tokens(command@).len() == 0,
            Some(parsed) => {
                &&& tokens(command@).len() > 0
                &&& parsed.0@ == tokens(command@)[0]
                &&& parsed.1@.len() + 1 == tokens(command@).len()
                &&& forall|j: int|
                    0 <= j < parsed.1@.len() ==> parsed.1@[j]@ == tokens(command@)[j + 1]
            },
        },
{
    let n = command.unicode_len();
    let mut toks: Vec<String> = Vec::new();
    let mut i: usize = 0;
    while i < n
        invariant
            n == command@.len(),
            i <= n,
            tokens(command@) == strings_view(toks@) + tokens_from(command@, i as int),
        decreases n - i,
    {
        let c = command.get_char(i);
        if is_space(c) {
            i = i + 1;
        } else {
            let start = i;
            let mut j = i + 1;
            proof {
                lemma_token_end(command@, start as int);
            }
            while j < n && !is_space(command.get_char(j))
                invariant
                    n == command@.len(),
                    start < j <= n,
                    forall|k: int| start <= k < j ==> !is_space_char(command@[k]),
                decreases n - j,
            {
                j = j + 1;
            }
            proof {
                lemma_token_end(command@, start as int);
                assert(token_end(command@, start as int) == j) by {
                    let e = token_end(command@, start as int);
                    if e < j {
                        assert(!is_space_char(command@[e]));
                    }
                    if e > j {
                        assert(j < n && !is_space_char(command@[j as int]));
                    }
                };
            }
            let tok = command.substring_char(start, j);
            toks.push(tok.to_owned());
            proof {
                assert(strings_view(toks@) =~= strings_view(toks@.drop_last()).push(
                    command@.subrange(start as int, j as int),
                ));
                assert(strings_view(toks@.drop_last()) + tokens_from(command@, start as int)
                    =~= strings_view(toks@) + tokens_from(command@, j as int));
            }
            i = j;
        }
    }
    if toks.len() == 0 {
        None
    } else {
        proof {
            assert(tokens(command@) =~= strings_view(toks@));
        }
        let name = toks.remove(0);
        proof {
            assert(forall|j: int|
                0 <= j < toks@.len() ==> toks@[j]@ == tokens(command@)[j + 1]);
        }
        Some((name, toks))
    }
}

/// Whether `c` is a decimal digit.
pub open spec fn is_digit_char(c: char) -> bool {
    48 <= c as u32 <= 57
}

/// The numeric value of a decimal digit.
pub open spec fn digit_val(c: char) -> nat {
    (c as u32 - 48) as nat
}

/// Whether every character of `s` is a decimal digit.
pub open spec fn all_digits(s: Seq<char>) -> bool {
    forall|i: int| 0 <= i < s.len() ==> is_digit_char(s[i])
}

/// The value of a digit sequence read in base ten.
pub open spec fn dec_value(s: Seq<char>) -> nat
    decreases s.len(),
{
    if s.len() == 0 {
        0
    } else {
        dec_value(s.drop_last()) * 10 + digit_val(s.last())
    }
}

/// Reading one more digit never shrinks the value.
proof fn lemma_dec_value_grows(s: Seq<char>, i: int)
    requires
        0 <= i <= s.len(),
    ensures
        dec_value(s.take(i)) <= dec_value(s),
    decreases s.len() - i,
{
    if i < s.len() {
        lemma_dec_value_grows(s, i + 1);
        assert(s.take(i + 1).drop_last() =~= s.take(i));
        assert(dec_value(s.take(i)) <= dec_value(s.take(i + 1)));
    } else {
        assert(s.take(i) =~= s);
    }
}

/// What parsing text as an unsigned 64-bit decimal number yields: the value
/// of the digits, unless the text is empty, holds a non-digit, or overflows.
pub open spec fn spec_parse_u64(s: Seq<char>) -> Option<u64> {
    if s.len() > 0 && all_digits(s) && dec_value(s) <= u64::MAX {
        Some(dec_value(s) as u64)
    } else {
        None
    }
}

/// Parses a run of decimal digits as a `u64`.
pub fn parse_u64(s: &str) -> (r: Option<u64>)
    ensures
        r == spec_parse_u64(s@),
{
    let n = s.unicode_len();
    if n == 0 {
        return None;
    }
    let mut acc: u64 = 0;
    let mut i: usize = 0;
    while i < n
        invariant
            n == s@.len(),
            i <= n,
            all_digits(s@.take(i as int)),
            acc == dec_value(s@.take(i as int)),
        decreases n - i,
    {
        let c = s.get_char(i);
        let cv = c as u32;
        if cv < 48 || cv > 57 {
            assert(!all_digits(s@));
            return None;
        }
        let d = (cv - 48) as u64;
        if acc > (u64::MAX - d) / 10 {
            proof {
                assert(s@.take(i as int + 1).drop_last() =~= s@.take(i as int));
                assert(dec_value(s@.take(i as int + 1)) == acc * 10 + d);
                assert(acc * 10 + d > u64::MAX) by (nonlinear_arith)
                    requires
                        acc > (u64::MAX - d) / 10,
                        d <= 9,
                ;
                lemma_dec_value_grows(s@, i as int + 1);
            }
            return None;
        }
        proof {
            assert(acc * 10 + d <= u64::MAX) by (nonlinear_arith)
                requires
                    acc <= (u64::MAX - d) / 10,
                    d <= 9,
            ;
            assert(s@.take(i as int + 1).drop_last() =~= s@.take(i as int));
        }
        acc = acc * 10 + d;
        i = i + 1;
    }
    proof {
        assert(s@.take(n as int) =~= s@);
    }
    Some(acc)
}

/// What parsing text as a signed 32-bit decimal number yields: an optional
/// single leading sign, then digits, rejected on overflow.
pub open spec fn spec_parse_i32(s: Seq<char>) -> Option<i32> {
    if s.len() >= 1 && (s[0] == '+' || s[0] == '-') {
        let rest = s.subrange(1, s.len() as int);
        if s[0] == '-' {
            if rest.len() > 0 && all_digits(rest) && dec_value(rest) <= 0x8000_0000 {
                Some((0 - dec_value(rest) as int) as i32)
            } else {
                None
            }
        } else {
            if rest.len() > 0 && all_digits(rest) && dec_value(rest) <= i32::MAX {
                Some(dec_value(rest) as i32)
            } else {
                None
            }
        }
    } else {
        if s.len() > 0 && all_digits(s) && dec_value(s) <= i32::MAX {
            Some(dec_value(s) as i32)
        } else {
            None
        }
    }
}

/// Parses text as a signed 32-bit decimal number, accepting one optional
/// leading `+` or `-`.
pub fn parse_i32(s: &str) -> (r: Option<i32>)
    ensures
        r == spec_parse_i32(s@),
{
    let n = s.unicode_len();
    if n == 0 {
        return None;
    }
    let first = s.get_char(0);
    if first == '+' || first == '-' {
        let rest = s.substring_char(1, n);
        let v = parse_u64(rest);
        match v {
            None => {
                proof {
                    if spec_parse_i32(s@) is Some {
                        let restv = s@.subrange(1, s@.len() as int);
                        assert(restv.len() > 0 && all_digits(restv));
                        assert(dec_value(restv) <= u64::MAX);
                    }
                }
                None
            },
            Some(v) => {
                if first == '-' {
                    if v <= 0x8000_0000 {
                        Some((0i64 - v as i64) as i32)
                    } else {
                        None
                    }
                } else {
                    if v <= 0x7fff_ffff {
                        Some(v as i32)
                    } else {
                        None
                    }
                }
            },
        }
    } else {
        let v = parse_u64(s);
        match v {
            None => None,
            Some(v) => {
                if v <= 0x7fff_ffff {
                    Some(v as i32)
                } else {
                    None
                }
            },
        }
    }
}

/// The character for a single decimal digit.
pub open spec fn digit_char(d: nat) -> char {
    if d == 0 {
        '0'
    } else if d == 1 {
        '1'
    } else if d == 2 {
        '2'
    } else if d == 3 {
        '3'
    } else if d == 4 {
        '4'
    } else if d == 5 {
        '5'
    } else if d == 6 {
        '6'
    } else if d == 7 {
        '7'
    } else if d == 8 {
        '8'
    } else {
        '9'
    }
}

/// The decimal digits of `v`, most significant first, with no leading zero
/// except for the value zero itself.
pub open spec fn dec_digits(v: nat) -> Seq<char>
    decreases v,
{
    if v < 10 {
        seq![digit_char(v)]
    } else {
        dec_digits(v / 10).push(digit_char(v % 10))
    }
}

fn digit_str(d: u64) -> (r: &'static str)
    requires
        d < 10,
    ensures
        r@ == seq![digit_char(d as nat)],
{
    proof {
        reveal_strlit("0");
        reveal_strlit("1");
        reveal_strlit("2");
        reveal_strlit("3");
        reveal_strlit("4");
        reveal_strlit("5");
        reveal_strlit("6");
        reveal_strlit("7");
        reveal_strlit("8");
        reveal_strlit("9");
    }
    let r = if d == 0 {
        "0"
    } else if d == 1 {
        "1"
    } else if d == 2 {
        "2"
    } else if d == 3 {
        "3"
    } else if d == 4 {
        "4"
    } else if d == 5 {
        "5"
    } else if d == 6 {
        "6"
    } else if d == 7 {
        "7"
    } else if d == 8 {
        "8"
    } else {
        "9"
    };
    proof {
        assert(r@ =~= seq![digit_char(d as nat)]);
    }
    r
}

/// Formats `v` in decimal.
pub fn u64_to_string(v: u64) -> (r: String)
    ensures
        r@ == dec_digits(v as nat),
    decreases v,
{
    if v < 10 {
        String::from_str(digit_str(v))
    } else {
        let mut r = u64_to_string(v / 10);
        r.append(digit_str(v % 10));
        proof {
            assert(r@ =~= dec_digits(v as nat));
        }
        r
    }
}

/// Character-by-character string equality.
pub fn str_eq(a: &str, b: &str) -> (r: bool)
    ensures
        r == (a@ == b@),
{
    let n = a.unicode_len();
    if n != b.unicode_len() {
        return false;
    }
    let mut i: usize = 0;
    while i < n
        invariant
            n == a@.len(),
            n == b@.len(),
            i <= n,
            forall|j: int| 0 <= j < i ==> a@[j] == b@[j],
        decreases n - i,
    {
        if a.get_char(i) != b.get_char(i) {
            return false;
        }
        i = i + 1;
    }
    proof {
        assert(a@ =~= b@);
    }
    true
}

/// Whether `p` is a leading prefix of `s`, character by character.
pub fn has_prefix(s: &str, p: &str) -> (r: bool)
    ensures
        r == p@.is_prefix_of(s@),
{
    let np = p.unicode_len();
    let ns = s.unicode_len();
    if np > ns {
        proof {
            assert(!p@.is_prefix_of(s@));
        }
        return false;
    }
    let mut i: usize = 0;
    while i < np
        invariant
            np == p@.len(),
            ns == s@.len(),
            np <= ns,
            i <= np,
            forall|j: int| 0 <= j < i ==> p@[j] == s@[j],
        decreases np - i,
    {
        if p.get_char(i) != s.get_char(i) {
            proof {
                assert(!p@.is_prefix_of(s@));
            }
            return false;
        }
        i = i + 1;
    }
    proof {
        assert(p@ =~= s@.subrange(0, p@.len() as int));
    }
    true
}

} // verus!
