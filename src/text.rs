//! Character-level vocabulary shared by the command grammar and the replies:
//! whitespace-separated tokens, unsigned decimal numbers and decimal text.
use vstd::prelude::*;

verus! {

/// Whether `c` is white space: the characters of Unicode's `White_Space` property.
pub open spec fn is_space(c: char) -> bool {
    ||| c == ' '
    ||| '\t' <= c <= '\r'
    ||| c == '\u{85}'
    ||| c == '\u{a0}'
    ||| c == '\u{1680}'
    ||| '\u{2000}' <= c <= '\u{200a}'
    ||| c == '\u{2028}'
    ||| c == '\u{2029}'
    ||| c == '\u{202f}'
    ||| c == '\u{205f}'
    ||| c == '\u{3000}'
}

/// Whether `s` holds a white space character.
pub open spec fn has_space(s: Seq<char>) -> bool {
    exists|i: int| 0 <= i < s.len() && is_space(#[trigger] s[i])
}

/// Number of characters before the first white space of `s` (all of them when there is none).
pub open spec fn token_len(s: Seq<char>) -> nat
    decreases s.len(),
{
    if s.len() == 0 || is_space(s[0]) {
        0
    } else {
        1 + token_len(s.drop_first())
    }
}

/// The first whitespace-delimited token of `s`.
pub open spec fn head(s: Seq<char>) -> Seq<char> {
    s.take(token_len(s) as int)
}

/// What follows the first white space character of `s`; empty when `s` holds none.
pub open spec fn tail(s: Seq<char>) -> Seq<char> {
    if token_len(s) < s.len() {
        s.skip((token_len(s) + 1) as int)
    } else {
        Seq::empty()
    }
}

/// The tokens that repeated splitting at the first white space yields, until nothing is left.
pub open spec fn tokens(s: Seq<char>) -> Seq<Seq<char>>
    decreases s.len(),
{
    if s.len() == 0 {
        Seq::empty()
    } else {
        proof {
            lemma_token_len_bound(s);
        }
        seq![head(s)] + tokens(tail(s))
    }
}

pub proof fn lemma_token_len_bound(s: Seq<char>)
    ensures
        token_len(s) <= s.len(),
        token_len(s) < s.len() ==> is_space(s[token_len(s) as int]),
        forall|i: int| 0 <= i < token_len(s) ==> !is_space(#[trigger] s[i]),
    decreases s.len(),
{
    if s.len() > 0 && !is_space(s[0]) {
        lemma_token_len_bound(s.drop_first());
        assert forall|i: int| 0 <= i < token_len(s) implies !is_space(#[trigger] s[i]) by {
            if i > 0 {
                assert(s[i] == s.drop_first()[i - 1]);
            }
        }
    }
}

/// The first token of `s` ends at `i` when no white space comes before `i` and `s` ends or holds
/// white space at `i`.
pub proof fn lemma_token_len_is(s: Seq<char>, i: int)
    requires
        0 <= i <= s.len(),
        forall|k: int| 0 <= k < i ==> !is_space(#[trigger] s[k]),
        i == s.len() || is_space(s[i]),
    ensures
        token_len(s) == i,
    decreases i,
{
    if i > 0 {
        let d = s.drop_first();
        assert forall|k: int| 0 <= k < i - 1 implies !is_space(#[trigger] d[k]) by {
            assert(d[k] == s[k + 1]);
        }
        if i < s.len() {
            assert(d[i - 1] == s[i]);
        }
        lemma_token_len_is(d, i - 1);
        assert(!is_space(s[0]));
    }
}

/// One step of [`tokens`]: the first token, then the tokens of what follows it.
pub proof fn lemma_tokens_step(s: Seq<char>)
    ensures
        s.len() == 0 <==> tokens(s).len() == 0,
        s.len() > 0 ==> tokens(s) == seq![head(s)] + tokens(tail(s)),
{
    lemma_token_len_bound(s);
}

/// Splitting `s` as `h + ' ' + t`, with no white space in `h`, is splitting at its first token.
pub proof fn lemma_split_is_head_tail(s: Seq<char>, h: Seq<char>, t: Seq<char>)
    requires
        s == h + seq![' '] + t,
        !has_space(h),
    ensures
        token_len(s) == h.len(),
        head(s) == h,
        tail(s) == t,
{
    assert forall|k: int| 0 <= k < h.len() implies !is_space(#[trigger] s[k]) by {
        assert(s[k] == h[k]);
        if is_space(h[k]) {
            assert(has_space(h));
        }
    }
    assert(s[h.len() as int] == ' ');
    lemma_token_len_is(s, h.len() as int);
    assert(head(s) =~= h);
    assert(tail(s) =~= t);
}

/// Text without white space is a single token.
pub proof fn lemma_no_space_is_head(s: Seq<char>)
    requires
        !has_space(s),
    ensures
        token_len(s) == s.len(),
        head(s) == s,
        tail(s) == Seq::<char>::empty(),
{
    assert forall|k: int| 0 <= k < s.len() implies !is_space(#[trigger] s[k]) by {
        if is_space(s[k]) {
            assert(has_space(s));
        }
    }
    lemma_token_len_is(s, s.len() as int);
    assert(head(s) =~= s);
}

/// Relies on `char::is_whitespace`: whether the character has Unicode's `White_Space` property.
#[verifier::external_body]
pub(crate) fn is_whitespace(c: char) -> (r: bool)
    ensures
        r == is_space(c),
{
    c.is_whitespace()
}

/// Splits `s` at its first white space character: its first token, and what follows that
/// character.
pub fn split_token<'a>(s: &'a str) -> (r: (&'a str, &'a str))
    ensures
        r.0@ == head(s@),
        r.1@ == tail(s@),
{
    let n = s.unicode_len();
    let mut i: usize = 0;
    while i < n && !is_whitespace(s.get_char(i))
        invariant
            n == s@.len(),
            i <= n,
            forall|k: int| 0 <= k < i ==> !is_space(#[trigger] s@[k]),
        decreases n - i,
    {
        i = i + 1;
    }
    proof {
        lemma_token_len_is(s@, i as int);
    }
    if i < n {
        let h = s.substring_char(0, i);
        let t = s.substring_char(i + 1, n);
        assert(h@ =~= head(s@));
        assert(t@ =~= tail(s@));
        (h, t)
    } else {
        proof {
            reveal_strlit("");
        }
        assert(s@ =~= head(s@));
        (s, "")
    }
}

pub open spec fn is_digit(c: char) -> bool {
    '0' <= c <= '9'
}

/// The value of the decimal digit `c`.
pub open spec fn digit_value(c: char) -> nat {
    (c as int - '0' as int) as nat
}

/// The value of a string of decimal digits, most significant first.
pub open spec fn digits_value(s: Seq<char>) -> nat
    decreases s.len(),
{
    if s.len() == 0 {
        0
    } else {
        digits_value(s.drop_last()) * 10 + digit_value(s.last())
    }
}

/// Whether every character of `d` is a decimal digit.
pub open spec fn all_digits(d: Seq<char>) -> bool {
    forall|i: int| 0 <= i < d.len() ==> is_digit(#[trigger] d[i])
}

/// The byte that `s` spells: an optional `+` and at least one decimal digit, of value at most 255.
pub open spec fn u8_of(s: Seq<char>) -> Option<u8> {
    let d = if s.len() > 0 && s[0] == '+' {
        s.drop_first()
    } else {
        s
    };
    if d.len() > 0 && all_digits(d) && digits_value(d) <= 255 {
        Some(digits_value(d) as u8)
    } else {
        None
    }
}

/// Relies on `u8`'s `FromStr`: an optional `+` followed by decimal digits whose value fits in a
/// byte; any other text is refused with a message.
#[verifier::external_body]
pub(crate) fn parse_u8(s: &str) -> (r: Result<u8, String>)
    ensures
        match r {
            Ok(v) => u8_of(s@) == Some(v),
            Err(_) => u8_of(s@) is None,
        },
{
    match s.parse::<u8>() {
        Ok(v) => Ok(v),
        Err(e) => Err(e.to_string()),
    }
}

pub open spec fn digit_char(d: nat) -> char {
    seq!['0', '1', '2', '3', '4', '5', '6', '7', '8', '9'][d as int]
}

/// Decimal digits of `n`, without leading zeros.
pub open spec fn nat_text(n: nat) -> Seq<char>
    decreases n,
{
    if n < 10 {
        seq![digit_char(n)]
    } else {
        nat_text(n / 10).push(digit_char(n % 10))
    }
}

proof fn lemma_digit_char(d: nat)
    requires
        d < 10,
    ensures
        is_digit(digit_char(d)),
        digit_value(digit_char(d)) == d,
{
    let s = seq!['0', '1', '2', '3', '4', '5', '6', '7', '8', '9'];
    if d == 0 {
        assert(s[0] == '0');
    } else if d == 1 {
        assert(s[1] == '1');
    } else if d == 2 {
        assert(s[2] == '2');
    } else if d == 3 {
        assert(s[3] == '3');
    } else if d == 4 {
        assert(s[4] == '4');
    } else if d == 5 {
        assert(s[5] == '5');
    } else if d == 6 {
        assert(s[6] == '6');
    } else if d == 7 {
        assert(s[7] == '7');
    } else if d == 8 {
        assert(s[8] == '8');
    } else {
        assert(s[9] == '9');
    }
}

/// The decimal text of `n` is a non-empty run of digits whose value is `n`.
pub proof fn lemma_nat_text(n: nat)
    ensures
        nat_text(n).len() > 0,
        forall|i: int| 0 <= i < nat_text(n).len() ==> is_digit(#[trigger] nat_text(n)[i]),
        digits_value(nat_text(n)) == n,
    decreases n,
{
    if n < 10 {
        lemma_digit_char(n);
        let s = seq![digit_char(n)];
        assert(s.drop_last() =~= Seq::<char>::empty());
        assert(digits_value(s) == digits_value(s.drop_last()) * 10 + digit_value(s.last()));
    } else {
        lemma_nat_text(n / 10);
        lemma_digit_char(n % 10);
        let s = nat_text(n);
        assert(s.drop_last() =~= nat_text(n / 10));
        assert(s.last() == digit_char(n % 10));
        assert(digits_value(s) == digits_value(nat_text(n / 10)) * 10 + digit_value(s.last()));
        assert((n / 10) * 10 + n % 10 == n) by (nonlinear_arith);
    }
}

/// A byte's decimal text reads back as that byte, and holds no white space.
pub proof fn lemma_u8_text(b: u8)
    ensures
        u8_of(nat_text(b as nat)) == Some(b),
        !has_space(nat_text(b as nat)),
{
    let s = nat_text(b as nat);
    lemma_nat_text(b as nat);
    assert(is_digit(s[0]));
    assert(!has_space(s)) by {
        if has_space(s) {
            let k = choose|k: int| 0 <= k < s.len() && is_space(#[trigger] s[k]);
            assert(is_digit(s[k]));
        }
    }
}

/// Decimal text of `n`, with a leading `-` when it is negative.
pub open spec fn int_text(n: int) -> Seq<char> {
    if n < 0 {
        seq!['-'] + nat_text((-n) as nat)
    } else {
        nat_text(n as nat)
    }
}

/// Relies on `i32`'s `ToString`: decimal digits, with a `-` in front of a negative number.
#[verifier::external_body]
pub(crate) fn decimal(n: i32) -> (r: String)
    ensures
        r@ == int_text(n as int),
{
    n.to_string()
}

} // verus!
