//! Verified text utilities: character-exact string equality, substring
//! search, decimal rendering and reading, and newline joining.

use vstd::prelude::*;
use vstd::string::StrSliceExecFns;
use vstd::string::StringExecFns;

verus! {

/// Character-exact equality of two string slices.
pub fn str_eq(a: &str, b: &str) -> (r: bool)
    ensures
        r == (a@ == b@),
{
    let alen = a.unicode_len();
    let blen = b.unicode_len();
    if alen != blen {
        return false;
    }
    let mut i: usize = 0;
    while i < alen
        invariant
            alen == a@.len(),
            alen == b@.len(),
            0 <= i <= alen,
            forall|j: int| 0 <= j < i ==> a@[j] == b@[j],
        decreases alen - i,
    {
        if a.get_char(i) != b.get_char(i) {
            return false;
        }
        i += 1;
    }
    proof {
        assert(a@ =~= b@);
    }
    true
}

/// `sub` occurs in `s` starting at position `i`.
pub open spec fn substring_at(s: Seq<char>, sub: Seq<char>, i: int) -> bool {
    &&& 0 <= i
    &&& i + sub.len() <= s.len()
    &&& s.subrange(i, i + sub.len() as int) == sub
}

/// `sub` occurs somewhere in `s`.
pub open spec fn contains_seq(s: Seq<char>, sub: Seq<char>) -> bool {
    exists|i: int| substring_at(s, sub, i)
}

/// `s` begins with `prefix`.
pub open spec fn starts_with_seq(s: Seq<char>, prefix: Seq<char>) -> bool {
    substring_at(s, prefix, 0)
}

/// `s` ends with `suffix`.
pub open spec fn ends_with_seq(s: Seq<char>, suffix: Seq<char>) -> bool {
    substring_at(s, suffix, s.len() - suffix.len())
}

/// Whether `sub` occurs in `s` at position `i`.
fn matches_at(s: &str, sub: &str, i: usize, slen: usize, sublen: usize) -> (r: bool)
    requires
        slen == s@.len(),
        sublen == sub@.len(),
        i + sublen <= slen,
    ensures
        r == substring_at(s@, sub@, i as int),
{
    let mut j: usize = 0;
    while j < sublen
        invariant
            slen == s@.len(),
            sublen == sub@.len(),
            i + sublen <= slen,
            0 <= j <= sublen,
            forall|k: int| 0 <= k < j ==> s@[i + k] == sub@[k],
        decreases sublen - j,
    {
        if s.get_char(i + j) != sub.get_char(j) {
            return false;
        }
        j += 1;
    }
    proof {
        assert(s@.subrange(i as int, i + sub@.len() as int) =~= sub@);
    }
    true
}

/// Substring search by scanning every starting position.
pub fn contains_str(s: &str, sub: &str) -> (r: bool)
    ensures
        r == contains_seq(s@, sub@),
{
    let slen = s.unicode_len();
    let sublen = sub.unicode_len();
    if sublen > slen {
        return false;
    }
    if sublen == 0 {
        proof {
            assert(s@.subrange(0, 0) =~= sub@);
            assert(substring_at(s@, sub@, 0));
        }
        return true;
    }
    let mut i: usize = 0;
    loop
        invariant
            slen == s@.len(),
            sublen == sub@.len(),
            0 < sublen <= slen,
            0 <= i <= slen - sublen + 1,
            forall|k: int| 0 <= k < i ==> !substring_at(s@, sub@, k),
        decreases slen - sublen - i + 1,
    {
        if i > slen - sublen {
            return false;
        }
        if matches_at(s, sub, i, slen, sublen) {
            return true;
        }
        i += 1;
    }
}

/// `s` begins with `prefix`, checked character by character.
pub fn starts_with_str(s: &str, prefix: &str) -> (r: bool)
    ensures
        r == starts_with_seq(s@, prefix@),
{
    let slen = s.unicode_len();
    let plen = prefix.unicode_len();
    if plen > slen {
        return false;
    }
    matches_at(s, prefix, 0, slen, plen)
}

/// `s` ends with `suffix`, checked character by character.
pub fn ends_with_str(s: &str, suffix: &str) -> (r: bool)
    ensures
        r == ends_with_seq(s@, suffix@),
{
    let slen = s.unicode_len();
    let xlen = suffix.unicode_len();
    if xlen > slen {
        return false;
    }
    matches_at(s, suffix, slen - xlen, slen, xlen)
}

/// ASCII whitespace, the characters the supervisor treats as blank.
pub open spec fn is_space_char(c: char) -> bool {
    c == ' ' || c == '\t' || c == '\r' || c == '\n'
}

/// A line is blank when every character is whitespace.
pub open spec fn is_blank_seq(s: Seq<char>) -> bool {
    forall|i: int| 0 <= i < s.len() ==> is_space_char(#[trigger] s[i])
}

/// Whether a line holds nothing but whitespace.
pub fn is_blank(s: &str) -> (r: bool)
    ensures
        r == is_blank_seq(s@),
{
    let len = s.unicode_len();
    let mut i: usize = 0;
    while i < len
        invariant
            len == s@.len(),
            0 <= i <= len,
            forall|j: int| 0 <= j < i ==> is_space_char(#[trigger] s@[j]),
        decreases len - i,
    {
        let c = s.get_char(i);
        if !(c == ' ' || c == '\t' || c == '\r' || c == '\n') {
            return false;
        }
        i += 1;
    }
    true
}

/// The character for a single decimal digit.
pub open spec fn digit_char(d: nat) -> char {
    if d == 0 {
        '0'
    } else if d == 1 {
        '1'
    } else if d == 2 {
        '2'
    } else if d == 3 {
        '3'
    } else if d == 4 {
        '4'
    } else if d == 5 {
        '5'
    } else if d == 6 {
        '6'
    } else if d == 7 {
        '7'
    } else if d == 8 {
        '8'
    } else {
        '9'
    }
}

/// Decimal rendering of a natural number, most significant digit first.
pub open spec fn dec_str(n: nat) -> Seq<char>
    decreases n,
{
    if n < 10 {
        seq![digit_char(n)]
    } else {
        dec_str(n / 10).push(digit_char(n % 10))
    }
}

/// The string slice for one digit.
fn digit_str(d: u64) -> (r: &'static str)
    requires
        d < 10,
    ensures
        r@ == seq![digit_char(d as nat)],
{
    proof {
        reveal_strlit("0");
        reveal_strlit("1");
        reveal_strlit("2");
        reveal_strlit("3");
        reveal_strlit("4");
        reveal_strlit("5");
        reveal_strlit("6");
        reveal_strlit("7");
        reveal_strlit("8");
        reveal_strlit("9");
    }
    if d == 0 {
        "0"
    } else if d == 1 {
        "1"
    } else if d == 2 {
        "2"
    } else if d == 3 {
        "3"
    } else if d == 4 {
        "4"
    } else if d == 5 {
        "5"
    } else if d == 6 {
        "6"
    } else if d == 7 {
        "7"
    } else if d == 8 {
        "8"
    } else {
        "9"
    }
}

/// Appends the decimal rendering of `n` to `out`.
pub fn push_decimal(n: u64, out: &mut String)
    ensures
        final(out)@ == old(out)@ + dec_str(n as nat),
    decreases n,
{
    if n >= 10 {
        push_decimal(n / 10, out);
    }
    out.append(digit_str(n % 10));
    proof {
        if n >= 10 {
            assert(dec_str(n as nat) == dec_str(n as nat / 10).push(digit_char(n as nat % 10)));
            assert(old(out)@ + dec_str(n as nat / 10) + seq![digit_char(n as nat % 10)] =~= old(
                out,
            )@ + dec_str(n as nat));
        } else {
            assert(old(out)@ + seq![digit_char(n as nat)] =~= old(out)@ + dec_str(n as nat));
        }
    }
}

/// The decimal rendering of `n` as an owned string.
pub fn u64_to_string(n: u64) -> (r: String)
    ensures
        r@ == dec_str(n as nat),
{
    let mut out = String::new();
    push_decimal(n, &mut out);
    proof {
        assert(Seq::<char>::empty() + dec_str(n as nat) =~= dec_str(n as nat));
    }
    out
}

/// The decimal rendering of a port number.
pub fn u16_to_string(n: u16) -> (r: String)
    ensures
        r@ == dec_str(n as nat),
{
    u64_to_string(n as u64)
}

/// Lines joined with single newline separators, as `join("\n")` yields.
pub open spec fn join_nl(lines: Seq<Seq<char>>) -> Seq<char>
    decreases lines.len(),
{
    if lines.len() == 0 {
        Seq::empty()
    } else if lines.len() == 1 {
        lines[0]
    } else {
        join_nl(lines.drop_last()) + seq!['\n'] + lines.last()
    }
}

/// Joins the lines with single newline separators.
pub fn join_lines(lines: &Vec<String>) -> (r: String)
    ensures
        r@ == join_nl(lines.deep_view()),
{
    proof {
        reveal_strlit("\n");
    }
    let mut out = String::new();
    let mut i: usize = 0;
    while i < lines.len()
        invariant
            0 <= i <= lines.len(),
            out@ == join_nl(lines.deep_view().take(i as int)),
        decreases lines.len() - i,
    {
        if i > 0 {
            out.append("\n");
        }
        let line: &String = &lines[i];
        out.append(line.as_str());
        proof {
            reveal_strlit("\n");
            let pre = lines.deep_view().take(i as int);
            let cur = lines.deep_view().take(i + 1);
            assert(cur.drop_last() =~= pre);
            assert(cur.last() == lines.deep_view()[i as int]);
            if i > 0 {
                assert(out@ =~= join_nl(cur));
            } else {
                assert(out@ =~= join_nl(cur));
            }
        }
        i += 1;
    }
    proof {
        assert(lines.deep_view().take(lines@.len() as int) =~= lines.deep_view());
    }
    out
}

/// Two strings concatenated.
pub fn concat2(a: &str, b: &str) -> (r: String)
    ensures
        r@ == a@ + b@,
{
    let mut out = String::new();
    out.append(a);
    out.append(b);
    proof {
        assert(Seq::<char>::empty() + a@ + b@ =~= a@ + b@);
    }
    out
}

/// Three strings concatenated.
pub fn concat3(a: &str, b: &str, c: &str) -> (r: String)
    ensures
        r@ == a@ + b@ + c@,
{
    let mut out = String::new();
    out.append(a);
    out.append(b);
    out.append(c);
    proof {
        assert(Seq::<char>::empty() + a@ + b@ + c@ =~= a@ + b@ + c@);
    }
    out
}


/// A decimal digit character.
pub open spec fn is_digit(c: char) -> bool {
    '0' <= c && c <= '9'
}

/// Every character is a decimal digit.
pub open spec fn is_digit_seq(s: Seq<char>) -> bool {
    forall|i: int| 0 <= i < s.len() ==> is_digit(#[trigger] s[i])
}

/// The value of one digit character.
pub open spec fn digit_val(c: char) -> nat {
    (c as u32 - 48) as nat
}

/// The value of a digit string, most significant digit first.
pub open spec fn dec_val(s: Seq<char>) -> nat
    decreases s.len(),
{
    if s.len() == 0 {
        0
    } else {
        dec_val(s.drop_last()) * 10 + digit_val(s.last())
    }
}

/// Reading back the character of a digit gives the digit.
pub proof fn lemma_digit_char_val(d: nat)
    requires
        d < 10,
    ensures
        digit_val(digit_char(d)) == d,
        is_digit(digit_char(d)),
{
    if d == 0 {
        assert(digit_val('0') == 0);
    } else if d == 1 {
        assert(digit_val('1') == 1);
    } else if d == 2 {
        assert(digit_val('2') == 2);
    } else if d == 3 {
        assert(digit_val('3') == 3);
    } else if d == 4 {
        assert(digit_val('4') == 4);
    } else if d == 5 {
        assert(digit_val('5') == 5);
    } else if d == 6 {
        assert(digit_val('6') == 6);
    } else if d == 7 {
        assert(digit_val('7') == 7);
    } else if d == 8 {
        assert(digit_val('8') == 8);
    } else {
        assert(digit_val('9') == 9);
    }
}

/// Rendering a number gives digits, and reading them back gives the number.
pub proof fn lemma_dec_str_val(n: nat)
    ensures
        is_digit_seq(dec_str(n)),
        dec_val(dec_str(n)) == n,
        dec_str(n).len() >= 1,
    decreases n,
{
    lemma_digit_char_val(n % 10);
    if n < 10 {
        assert(dec_str(n) =~= seq![digit_char(n)]);
        assert(dec_str(n).drop_last() =~= Seq::<char>::empty());
        assert(dec_val(dec_str(n)) == dec_val(Seq::<char>::empty()) * 10 + digit_val(
            digit_char(n),
        ));
    } else {
        lemma_dec_str_val(n / 10);
        assert(dec_str(n) == dec_str(n / 10).push(digit_char(n % 10)));
        assert(dec_str(n).drop_last() =~= dec_str(n / 10));
        assert(dec_str(n).last() == digit_char(n % 10));
        assert(is_digit_seq(dec_str(n))) by {
            assert forall|i: int| 0 <= i < dec_str(n).len() implies is_digit(
                #[trigger] dec_str(n)[i],
            ) by {
                if i < dec_str(n).len() - 1 {
                    assert(dec_str(n)[i] == dec_str(n / 10)[i]);
                }
            }
        }
    }
}

} // verus!
