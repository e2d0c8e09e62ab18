//! The program loader: parses the textual form of a program — decimal
//! integers, optionally signed, separated by commas, with surrounding
//! whitespace ignored — into the value array the machine consumes.

use crate::machine::VALUE;
use vstd::prelude::*;

verus! {

/// The whitespace characters stripped from the ends of the program text.
pub open spec fn is_plain_whitespace(c: char) -> bool {
    c == ' ' || c == '\t' || c == '\n' || c == '\r'
}

/// `s` without its leading whitespace.
pub open spec fn trim_front(s: Seq<char>) -> Seq<char>
    decreases s.len(),
{
    if s.len() > 0 && is_plain_whitespace(s[0]) {
        trim_front(s.drop_first())
    } else {
        s
    }
}

/// `s` without its trailing whitespace.
pub open spec fn trim_back(s: Seq<char>) -> Seq<char>
    decreases s.len(),
{
    if s.len() > 0 && is_plain_whitespace(s.last()) {
        trim_back(s.drop_last())
    } else {
        s
    }
}

/// `s` without leading and trailing whitespace.
pub open spec fn spec_trim(s: Seq<char>) -> Seq<char> {
    trim_back(trim_front(s))
}

/// Whether `c` is a decimal digit.
pub open spec fn is_digit(c: char) -> bool {
    '0' as int <= c as int <= '9' as int
}

/// The numeric value of a decimal digit.
pub open spec fn digit_val(c: char) -> int {
    c as int - '0' as int
}

/// Every character of `s` is a decimal digit.
pub open spec fn all_digits(s: Seq<char>) -> bool {
    forall|i: int| 0 <= i < s.len() ==> is_digit(#[trigger] s[i])
}

/// The number a digit string denotes, most significant digit first.
pub open spec fn digits_val(s: Seq<char>) -> int
    decreases s.len(),
{
    if s.len() == 0 {
        0
    } else {
        digits_val(s.drop_last()) * 10 + digit_val(s.last())
    }
}

/// The digit part of a token: everything after an optional leading sign.
pub open spec fn token_digits(t: Seq<char>) -> Seq<char> {
    if t.len() > 0 && (t[0] == '-' || t[0] == '+') {
        t.drop_first()
    } else {
        t
    }
}

/// The integer a token denotes (meaningful only for valid tokens).
pub open spec fn token_val(t: Seq<char>) -> int {
    if t.len() > 0 && t[0] == '-' {
        -digits_val(token_digits(t))
    } else {
        digits_val(token_digits(t))
    }
}

/// Whether `t` is a value the loader accepts: an optional sign, at least
/// one digit, and a denoted value inside the machine's value domain.
pub open spec fn is_value_token(t: Seq<char>) -> bool {
    &&& token_digits(t).len() > 0
    &&& all_digits(token_digits(t))
    &&& i64::MIN <= token_val(t) <= i64::MAX
}

/// Whether `s` contains a comma.
pub open spec fn has_comma(s: Seq<char>) -> bool {
    exists|i: int| 0 <= i < s.len() && s[i] == ','
}

/// The index of the first comma of `s` (meaningful only when one exists).
pub open spec fn first_comma_index(s: Seq<char>) -> int
    decreases s.len(),
{
    if s.len() == 0 {
        0
    } else if s[0] == ',' {
        0
    } else {
        1 + first_comma_index(s.drop_first())
    }
}

/// The values denoted by a comma-separated list of tokens, or `None` if
/// any token is malformed or out of range.
pub open spec fn parse_values(s: Seq<char>) -> Option<Seq<VALUE>>
    decreases s.len(),
    via parse_values_decreases
{
    if has_comma(s) {
        let k = first_comma_index(s);
        let head = s.subrange(0, k);
        let tail = s.subrange(k + 1, s.len() as int);
        if is_value_token(head) {
            match parse_values(tail) {
                Some(rest) => Some(seq![token_val(head) as VALUE] + rest),
                None => None,
            }
        } else {
            None
        }
    } else {
        if is_value_token(s) {
            Some(seq![token_val(s) as VALUE])
        } else {
            None
        }
    }
}

#[via_fn]
proof fn parse_values_decreases(s: Seq<char>) {
    if has_comma(s) {
        lemma_first_comma(s);
    }
}

/// What the loader makes of a program text: trim it, then parse the
/// comma-separated tokens.
pub open spec fn parse_program(s: Seq<char>) -> Option<Seq<VALUE>> {
    parse_values(spec_trim(s))
}

/// A digit string denotes a nonnegative number.
proof fn lemma_digits_val_nonneg(s: Seq<char>)
    requires
        all_digits(s),
    ensures
        digits_val(s) >= 0,
    decreases s.len(),
{
    if s.len() > 0 {
        assert(all_digits(s.drop_last()));
        lemma_digits_val_nonneg(s.drop_last());
    }
}

/// Extending a digit string never shrinks the number it denotes.
proof fn lemma_digits_prefix_le(s: Seq<char>, i: int)
    requires
        all_digits(s),
        0 <= i <= s.len(),
    ensures
        digits_val(s.subrange(0, i)) <= digits_val(s),
    decreases s.len() - i,
{
    if i == s.len() {
        assert(s.subrange(0, i) =~= s);
    } else {
        let shorter = s.subrange(0, i);
        let longer = s.subrange(0, i + 1);
        assert(longer.drop_last() =~= shorter);
        assert(all_digits(shorter));
        lemma_digits_val_nonneg(shorter);
        assert(is_digit(longer.last()));
        assert(digits_val(longer) == digits_val(shorter) * 10 + digit_val(longer.last()));
        assert(digits_val(shorter) * 10 >= digits_val(shorter)) by (nonlinear_arith)
            requires
                digits_val(shorter) >= 0,
        ;
        lemma_digits_prefix_le(s, i + 1);
    }
}

/// The first comma index points at a comma, and nothing before it is one.
proof fn lemma_first_comma(s: Seq<char>)
    requires
        has_comma(s),
    ensures
        0 <= first_comma_index(s) < s.len(),
        s[first_comma_index(s)] == ',',
        forall|j: int| 0 <= j < first_comma_index(s) ==> s[j] != ',',
    decreases s.len(),
{
    if s[0] == ',' {
    } else {
        let d = s.drop_first();
        let w = choose|i: int| 0 <= i < s.len() && s[i] == ',';
        assert(d[w - 1] == ',');
        assert(has_comma(d));
        lemma_first_comma(d);
        assert forall|j: int| 0 <= j < first_comma_index(s) implies s[j] != ',' by {
            if j > 0 {
                assert(d[j - 1] != ',');
            }
        }
    }
}

/// Where the token that starts at `i` ends: at the first comma of
/// `s[i..hi]`, or at `hi` when there is none.
pub open spec fn token_end(s: Seq<char>, i: int, hi: int) -> int {
    let su = s.subrange(i, hi);
    if has_comma(su) {
        i + first_comma_index(su)
    } else {
        hi
    }
}

/// The token boundary behaves as expected, and `parse_values` on the
/// suffix `s[i..hi]` decomposes into the head token up to that boundary
/// and the parse of the remainder.
proof fn lemma_token_split(s: Seq<char>, i: int, hi: int)
    requires
        0 <= i <= hi <= s.len(),
    ensures
        i <= token_end(s, i, hi) <= hi,
        forall|k: int| i <= k < token_end(s, i, hi) ==> s[k] != ',',
        token_end(s, i, hi) < hi ==> s[token_end(s, i, hi)] == ',',
        parse_values(s.subrange(i, hi)) == ({
            let te = token_end(s, i, hi);
            let head = s.subrange(i, te);
            if !is_value_token(head) {
                None
            } else if te == hi {
                Some(seq![token_val(head) as VALUE])
            } else {
                match parse_values(s.subrange(te + 1, hi)) {
                    Some(rest) => Some(seq![token_val(head) as VALUE] + rest),
                    None => None,
                }
            }
        }),
{
    let su = s.subrange(i, hi);
    let te = token_end(s, i, hi);
    if has_comma(su) {
        lemma_first_comma(su);
        let k = first_comma_index(su);
        assert(s[te] == su[k]);
        assert forall|j: int| i <= j < te implies s[j] != ',' by {
            assert(su[j - i] != ',');
        }
        assert(su.subrange(0, k) =~= s.subrange(i, te));
        assert(su.subrange(k + 1, su.len() as int) =~= s.subrange(te + 1, hi));
    } else {
        assert forall|j: int| i <= j < te implies s[j] != ',' by {
            assert(su[j - i] == s[j]);
        }
        assert(su =~= s.subrange(i, te));
    }
}

/// A comma at `j`, with none earlier in the suffix, is the token boundary.
proof fn lemma_comma_position(s: Seq<char>, i: int, hi: int, j: int)
    requires
        0 <= i <= j < hi <= s.len(),
        s[j] == ',',
        forall|k: int| i <= k < j ==> s[k] != ',',
    ensures
        token_end(s, i, hi) == j,
{
    let su = s.subrange(i, hi);
    assert(su[j - i] == ',');
    assert(has_comma(su));
    lemma_first_comma(su);
    let k = first_comma_index(su);
    if k < j - i {
        assert(s[i + k] == su[k]);
    }
    if k > j - i {
        assert(su[j - i] != ',');
    }
}

/// A comma-free stretch pushes the token boundary past it.
proof fn lemma_no_comma_through(s: Seq<char>, i: int, hi: int, j: int)
    requires
        0 <= i <= j <= hi <= s.len(),
        forall|k: int| i <= k < j ==> s[k] != ',',
    ensures
        token_end(s, i, hi) >= j,
{
    let su = s.subrange(i, hi);
    if has_comma(su) {
        lemma_first_comma(su);
        let k = first_comma_index(su);
        if i + k < j {
            assert(s[i + k] == su[k]);
        }
    }
}

/// Whether `c` is one of the whitespace characters the loader strips.
fn ws_char(c: char) -> (b: bool)
    ensures
        b == is_plain_whitespace(c),
{
    c == ' ' || c == '\t' || c == '\n' || c == '\r'
}

/// Whether `c` is a decimal digit.
fn digit_char(c: char) -> (b: bool)
    ensures
        b == is_digit(c),
{
    c >= '0' && c <= '9'
}

/// Parses a program text into its value array: [`parse_program`] made
/// executable.  `None` reports a malformed or out-of-range token.
#[verifier::loop_isolation(false)]
#[verifier::rlimit(60)]
pub fn parse_code(code_str: &str) -> (r: Option<Vec<VALUE>>)
    ensures
        match r {
            Some(v) => parse_program(code_str@) == Some(v@),
            None => parse_program(code_str@) is None,
        },
{
    let ghost s = code_str@;
    let n: usize = code_str.unicode_len();
    let mut lo: usize = 0;
    let mut hi: usize = n;
    proof {
        assert(s =~= s.subrange(0, n as int));
    }
    while lo < hi && ws_char(code_str.get_char(lo))
        invariant
            lo <= hi,
            trim_front(s) == trim_front(s.subrange(lo as int, n as int)),
        decreases hi - lo,
    {
        proof {
            let sub = s.subrange(lo as int, n as int);
            assert(sub[0] == s[lo as int]);
            assert(sub.drop_first() =~= s.subrange(lo as int + 1, n as int));
        }
        lo = lo + 1;
    }
    proof {
        assert(trim_front(s) == s.subrange(lo as int, n as int));
    }
    while lo < hi && ws_char(code_str.get_char(hi - 1))
        invariant
            lo <= hi <= n,
            trim_back(s.subrange(lo as int, n as int)) == trim_back(
                s.subrange(lo as int, hi as int),
            ),
        decreases hi,
    {
        proof {
            let sub = s.subrange(lo as int, hi as int);
            assert(sub.last() == s[hi as int - 1]);
            assert(sub.drop_last() =~= s.subrange(lo as int, hi as int - 1));
        }
        hi = hi - 1;
    }
    let ghost t = s.subrange(lo as int, hi as int);
    proof {
        if lo < hi {
            assert(t.last() == s[hi as int - 1]);
        }
        assert(trim_back(t) == t);
        assert(spec_trim(s) == t);
    }
    let mut out: Vec<VALUE> = Vec::new();
    let mut i: usize = lo;
    loop
        invariant
            lo <= i <= hi,
            parse_values(t) == (match parse_values(s.subrange(i as int, hi as int)) {
                Some(rest) => Some(out@ + rest),
                None => None::<Seq<VALUE>>,
            }),
        decreases hi - i,
    {
        let ghost su = s.subrange(i as int, hi as int);
        if i == hi {
            proof {
                assert(su.len() == 0);
                assert(!has_comma(su));
                assert(token_digits(su).len() == 0);
                assert(parse_values(su) is None);
            }
            return None;
        }
        let mut neg = false;
        let mut j: usize = i;
        let c0 = code_str.get_char(j);
        if c0 == '-' {
            neg = true;
            j = j + 1;
        } else if c0 == '+' {
            j = j + 1;
        }
        let d0: usize = j;
        let mut acc: i128 = 0;
        proof {
            assert(s.subrange(d0 as int, d0 as int) =~= Seq::<char>::empty());
        }
        while j < hi && code_str.get_char(j) != ','
            invariant
                d0 <= j <= hi,
                forall|k: int| i <= k < j ==> s[k] != ',',
                forall|k: int| d0 <= k < j ==> is_digit(#[trigger] s[k]),
                acc == digits_val(s.subrange(d0 as int, j as int)),
                0 <= acc <= 0x8000_0000_0000_0000i128,
            decreases hi - j,
        {
            let c = code_str.get_char(j);
            proof {
                lemma_no_comma_through(s, i as int, hi as int, j + 1);
                lemma_token_split(s, i as int, hi as int);
            }
            let ghost te = token_end(s, i as int, hi as int);
            let ghost head = s.subrange(i as int, te);
            let ghost digits = token_digits(head);
            proof {
                if d0 > i {
                    assert(head[0] == s[i as int]);
                }
                assert(digits =~= s.subrange(d0 as int, te));
            }
            if !digit_char(c) {
                proof {
                    assert(digits[j - d0] == s[j as int]);
                    assert(!all_digits(digits));
                    assert(!is_value_token(head));
                    assert(parse_values(su) is None);
                }
                return None;
            }
            let d: u32 = c as u32 - 48;
            proof {
                let grown = s.subrange(d0 as int, j + 1);
                assert(grown.drop_last() =~= s.subrange(d0 as int, j as int));
                assert(grown.last() == s[j as int]);
                assert(digits_val(grown) == acc * 10 + digit_val(s[j as int]));
            }
            acc = acc * 10 + (d as i128);
            j = j + 1;
            if acc > 0x8000_0000_0000_0000i128 {
                proof {
                    if all_digits(digits) {
                        assert(digits.subrange(0, j - d0) =~= s.subrange(d0 as int, j as int));
                        lemma_digits_prefix_le(digits, j - d0);
                        assert(digits_val(digits) > 0x8000_0000_0000_0000i128);
                        assert(!is_value_token(head));
                    } else {
                        assert(!is_value_token(head));
                    }
                    assert(parse_values(su) is None);
                }
                return None;
            }
        }
        proof {
            lemma_token_split(s, i as int, hi as int);
            if j < hi {
                lemma_comma_position(s, i as int, hi as int, j as int);
            } else {
                lemma_no_comma_through(s, i as int, hi as int, j as int);
            }
            assert(token_end(s, i as int, hi as int) == j);
        }
        let ghost head = s.subrange(i as int, j as int);
        let ghost digits = token_digits(head);
        proof {
            if d0 > i {
                assert(head[0] == s[i as int]);
            }
            assert(digits =~= s.subrange(d0 as int, j as int));
        }
        if d0 == j {
            proof {
                assert(digits.len() == 0);
                assert(!is_value_token(head));
                assert(parse_values(su) is None);
            }
            return None;
        }
        if !neg && acc > 0x7fff_ffff_ffff_ffffi128 {
            proof {
                assert(token_val(head) == acc);
                assert(!is_value_token(head));
                assert(parse_values(su) is None);
            }
            return None;
        }
        let val: VALUE = if neg {
            (-acc) as i64
        } else {
            acc as i64
        };
        proof {
            if neg {
                assert(head[0] == '-');
                assert(token_val(head) == -acc);
            } else {
                assert(token_val(head) == acc);
            }
            assert(is_value_token(head));
        }
        out.push(val);
        if j < hi {
            proof {
                let rest_src = s.subrange(j + 1, hi as int);
                assert(parse_values(su) == (match parse_values(rest_src) {
                    Some(rest) => Some(seq![val] + rest),
                    None => None::<Seq<VALUE>>,
                }));
                assert forall|rest: Seq<VALUE>| true implies (out@ + rest) =~= (out@.drop_last() + (
                seq![val] + rest)) by {}
            }
            j = j + 1;
            i = j;
        } else {
            proof {
                assert(parse_values(su) == Some(seq![val]));
                assert(out@ =~= out@.drop_last() + seq![val]);
                assert(parse_values(t) == Some(out@));
            }
            return Some(out);
        }
    }
}

/// Parses a program text that is known to be well formed, handing back its
/// value array.  The loader treats a malformed text as a fatal error, so a
/// caller must only hand this function a text that [`parse_program`]
/// accepts; [`parse_code`] tells the two apart at run time.
pub fn string_to_code(code_str: &str) -> (r: Vec<VALUE>)
    requires
        parse_program(code_str@) is Some,
    ensures
        Some(r@) == parse_program(code_str@),
{
    match parse_code(code_str) {
        Some(v) => v,
        None => unreached(),
    }
}

} // verus!
