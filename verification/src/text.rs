//! Plain-text helpers shared by the trigger synthesizer: hyphenation of
//! labels, first-letter shortnames, and decimal digit handling.

use vstd::prelude::*;
use vstd::string::*;

verus! {

/// A label with spaces replaced by hyphens, character for character.
pub open spec fn hyph(s: Seq<char>) -> Seq<char> {
    s.map_values(|c: char| if c == ' ' { '-' } else { c })
}

/// Replaces every space of `s` by a hyphen.
pub fn hyphenate(s: &str) -> (r: String)
    ensures
        r@ == hyph(s@),
{
    let n = s.unicode_len();
    let mut r = String::new();
    let mut i: usize = 0;
    while i < n
        invariant
            n == s@.len(),
            i <= n,
            r@ == hyph(s@.take(i as int)),
        decreases n - i,
    {
        let ghost pre = r@;
        let c = s.get_char(i);
        if c == ' ' {
            proof {
                reveal_strlit("-");
            }
            r.append("-");
            assert(r@ =~= pre.push('-'));
        } else {
            let piece = s.substring_char(i, i + 1);
            proof {
                assert(s@.subrange(i as int, i + 1) =~= seq![s@[i as int]]);
            }
            r.append(piece);
            assert(r@ =~= pre.push(s@[i as int]));
        }
        proof {
            assert(s@.take(i + 1) =~= s@.take(i as int).push(s@[i as int]));
            assert(hyph(s@.take(i + 1)) =~= hyph(s@.take(i as int)).push(
                if s@[i as int] == ' ' { '-' } else { s@[i as int] },
            ));
        }
        i = i + 1;
    }
    proof {
        assert(s@.take(n as int) =~= s@);
    }
    r
}

/// The first letter of each whitespace-separated word of `s`, concatenated;
/// `at_start` says whether the scan stands at the beginning of a word.
pub open spec fn shortname_rec(s: Seq<char>, at_start: bool) -> Seq<char>
    decreases s.len(),
{
    if s.len() == 0 {
        Seq::empty()
    } else if s[0] == ' ' {
        shortname_rec(s.skip(1), true)
    } else if at_start {
        seq![s[0]] + shortname_rec(s.skip(1), false)
    } else {
        shortname_rec(s.skip(1), false)
    }
}

/// The shortname of a label: the first letter of each word.
pub open spec fn shortname(s: Seq<char>) -> Seq<char> {
    shortname_rec(s, true)
}

/// Collects the first character of each space-separated word of `label`.
pub(crate) fn shortname_of(label: &str) -> (r: String)
    ensures
        r@ == shortname(label@),
{
    let n = label.unicode_len();
    let mut r = String::new();
    let mut i: usize = 0;
    let mut at_start: bool = true;
    proof {
        assert(label@.skip(0) =~= label@);
        assert(r@ + shortname(label@) =~= shortname(label@));
    }
    while i < n
        invariant
            n == label@.len(),
            i <= n,
            r@ + shortname_rec(label@.skip(i as int), at_start) == shortname(label@),
        decreases n - i,
    {
        let ghost pre = r@;
        let c = label.get_char(i);
        proof {
            assert(label@.skip(i as int)[0] == label@[i as int]);
            assert(label@.skip(i as int).skip(1) =~= label@.skip(i + 1));
        }
        if c == ' ' {
            at_start = true;
        } else {
            if at_start {
                let piece = label.substring_char(i, i + 1);
                proof {
                    assert(label@.subrange(i as int, i + 1) =~= seq![label@[i as int]]);
                }
                r.append(piece);
                proof {
                    assert(pre + (seq![label@[i as int]] + shortname_rec(
                        label@.skip(i + 1),
                        false,
                    )) =~= r@ + shortname_rec(label@.skip(i + 1), false));
                }
            }
            at_start = false;
        }
        i = i + 1;
    }
    proof {
        assert(label@.skip(n as int) =~= Seq::<char>::empty());
        assert(r@ + Seq::<char>::empty() =~= r@);
    }
    r
}

/// An ASCII decimal digit.
pub open spec fn is_ascii_digit(c: char) -> bool {
    '0' as int <= c as int && c as int <= '9' as int
}

/// An ASCII letter.
pub open spec fn is_ascii_letter(c: char) -> bool {
    ('a' as int <= c as int && c as int <= 'z' as int) || ('A' as int <= c as int && c as int
        <= 'Z' as int)
}

/// The numeric value of a decimal digit character.
pub open spec fn digit_val(c: char) -> nat {
    (c as int - '0' as int) as nat
}

/// A non-empty sequence of decimal digit characters.
pub open spec fn all_digits(s: Seq<char>) -> bool {
    forall|i: int| 0 <= i < s.len() ==> is_ascii_digit(#[trigger] s[i])
}

/// A non-empty sequence of ASCII letters.
pub open spec fn all_letters(s: Seq<char>) -> bool {
    forall|i: int| 0 <= i < s.len() ==> is_ascii_letter(#[trigger] s[i])
}

/// The value of a digit string read as a decimal number.
pub open spec fn dec_val(s: Seq<char>) -> nat
    decreases s.len(),
{
    if s.len() == 0 {
        0
    } else {
        dec_val(s.drop_last()) * 10 + digit_val(s.last())
    }
}

/// The digit character for a value below ten.
pub open spec fn digit_char(d: nat) -> char {
    if d == 0 {
        '0'
    } else if d == 1 {
        '1'
    } else if d == 2 {
        '2'
    } else if d == 3 {
        '3'
    } else if d == 4 {
        '4'
    } else if d == 5 {
        '5'
    } else if d == 6 {
        '6'
    } else if d == 7 {
        '7'
    } else if d == 8 {
        '8'
    } else {
        '9'
    }
}

/// The decimal rendering of a number, without leading zeros.
pub open spec fn dec_rep(n: nat) -> Seq<char>
    decreases n,
{
    if n < 10 {
        seq![digit_char(n)]
    } else {
        dec_rep(n / 10).push(digit_char(n % 10))
    }
}

/// A prefix of a digit string never reads as more than the whole.
pub proof fn lemma_dec_val_take_le(s: Seq<char>, j: int)
    requires
        0 <= j <= s.len(),
    ensures
        dec_val(s.take(j)) <= dec_val(s),
    decreases s.len() - j,
{
    if j < s.len() {
        assert(s.take(j + 1).drop_last() =~= s.take(j));
        assert(s.take(j + 1).last() == s[j]);
        assert(dec_val(s.take(j + 1)) == dec_val(s.take(j)) * 10 + digit_val(s[j]));
        assert(dec_val(s.take(j)) <= dec_val(s.take(j)) * 10) by (nonlinear_arith);
        lemma_dec_val_take_le(s, j + 1);
    } else {
        assert(s.take(j) =~= s);
    }
}

/// The single-character string for a digit value.
fn digit_str(d: u32) -> (r: &'static str)
    requires
        d < 10,
    ensures
        r@ == seq![digit_char(d as nat)],
{
    proof {
        reveal_strlit("0");
        reveal_strlit("1");
        reveal_strlit("2");
        reveal_strlit("3");
        reveal_strlit("4");
        reveal_strlit("5");
        reveal_strlit("6");
        reveal_strlit("7");
        reveal_strlit("8");
        reveal_strlit("9");
    }
    let r = match d {
        0 => "0",
        1 => "1",
        2 => "2",
        3 => "3",
        4 => "4",
        5 => "5",
        6 => "6",
        7 => "7",
        8 => "8",
        _ => "9",
    };
    proof {
        assert(r@ =~= seq![digit_char(d as nat)]);
    }
    r
}

/// Renders `n` in decimal, without leading zeros.
pub fn u32_to_dec(n: u32) -> (r: String)
    ensures
        r@ == dec_rep(n as nat),
    decreases n,
{
    if n < 10 {
        let d = digit_str(n);
        String::from_str(d)
    } else {
        assert(n / 10 < n) by (nonlinear_arith)
            requires
                n >= 10,
        ;
        let mut r = u32_to_dec(n / 10);
        let d = digit_str(n % 10);
        r.append(d);
        proof {
            assert(dec_rep((n / 10) as nat) + seq![digit_char((n % 10) as nat)] =~= dec_rep(
                (n / 10) as nat,
            ).push(digit_char((n % 10) as nat)));
            assert(dec_rep(n as nat) == dec_rep(n as nat / 10).push(digit_char(n as nat % 10)));
        }
        r
    }
}

/// Lexicographic order on character sequences, by Unicode scalar value.
pub open spec fn lex_le(a: Seq<char>, b: Seq<char>) -> bool
    decreases a.len(),
{
    if a.len() == 0 {
        true
    } else if b.len() == 0 {
        false
    } else if a[0] == b[0] {
        lex_le(a.skip(1), b.skip(1))
    } else {
        (a[0] as int) < (b[0] as int)
    }
}

/// Any two sequences are ordered one way or the other.
pub proof fn lemma_lex_total(a: Seq<char>, b: Seq<char>)
    ensures
        lex_le(a, b) || lex_le(b, a),
    decreases a.len(),
{
    if a.len() == 0 {
        assert(lex_le(a, b));
    } else if b.len() == 0 {
        assert(lex_le(b, a));
    } else if a[0] == b[0] {
        lemma_lex_total(a.skip(1), b.skip(1));
        assert(lex_le(a, b) == lex_le(a.skip(1), b.skip(1)));
        assert(lex_le(b, a) == lex_le(b.skip(1), a.skip(1)));
    } else {
        assert(a[0] as int != b[0] as int);
        assert(lex_le(a, b) == ((a[0] as int) < (b[0] as int)));
        assert(lex_le(b, a) == ((b[0] as int) < (a[0] as int)));
    }
}

/// Sequences ordered both ways are equal.
pub proof fn lemma_lex_antisym(a: Seq<char>, b: Seq<char>)
    requires
        lex_le(a, b),
        lex_le(b, a),
    ensures
        a == b,
    decreases a.len(),
{
    if a.len() == 0 {
        assert(b.len() == 0);
        assert(a =~= b);
    } else {
        assert(b.len() > 0);
        assert(a[0] == b[0]);
        lemma_lex_antisym(a.skip(1), b.skip(1));
        assert(a.len() == b.len());
        assert forall|i: int| 0 <= i < a.len() implies a[i] == b[i] by {
            if i > 0 {
                assert(a.skip(1)[i - 1] == b.skip(1)[i - 1]);
                assert(a.skip(1)[i - 1] == a[i]);
                assert(b.skip(1)[i - 1] == b[i]);
            }
        }
        assert(a =~= b);
    }
}

/// The order is transitive.
pub proof fn lemma_lex_trans(a: Seq<char>, b: Seq<char>, c: Seq<char>)
    requires
        lex_le(a, b),
        lex_le(b, c),
    ensures
        lex_le(a, c),
    decreases a.len(),
{
    if a.len() > 0 && b.len() > 0 && c.len() > 0 && a[0] == b[0] && b[0] == c[0] {
        lemma_lex_trans(a.skip(1), b.skip(1), c.skip(1));
    }
}

/// Decides the lexicographic order on two strings.
pub fn str_lex_le(a: &str, b: &str) -> (r: bool)
    ensures
        r == lex_le(a@, b@),
{
    let an = a.unicode_len();
    let bn = b.unicode_len();
    let mut i: usize = 0;
    proof {
        assert(a@.skip(0) =~= a@);
        assert(b@.skip(0) =~= b@);
    }
    loop
        invariant
            an == a@.len(),
            bn == b@.len(),
            i <= an,
            i <= bn,
            lex_le(a@, b@) == lex_le(a@.skip(i as int), b@.skip(i as int)),
        decreases an - i,
    {
        if i >= an {
            assert(a@.skip(i as int).len() == 0);
            return true;
        }
        if i >= bn {
            assert(b@.skip(i as int).len() == 0);
            assert(a@.skip(i as int).len() > 0);
            return false;
        }
        let ca = a.get_char(i);
        let cb = b.get_char(i);
        proof {
            assert(a@.skip(i as int)[0] == a@[i as int]);
            assert(b@.skip(i as int)[0] == b@[i as int]);
            assert(a@.skip(i as int).skip(1) =~= a@.skip(i + 1));
            assert(b@.skip(i as int).skip(1) =~= b@.skip(i + 1));
        }
        if ca as u32 == cb as u32 {
            i = i + 1;
        } else {
            return (ca as u32) < (cb as u32);
        }
    }
}

} // verus!
