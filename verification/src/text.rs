//! Plain-text helpers: decimal formatting of unsigned integers and the
//! "blank field" test used when validating client data.

use vstd::prelude::*;

verus! {

/// The digit character for `d < 10`.
pub open spec fn digit_char(d: nat) -> char {
    seq!['0', '1', '2', '3', '4', '5', '6', '7', '8', '9'][d as int]
}

/// Decimal representation of `n` without leading zeros, as `u64`'s `Display` writes it.
pub open spec fn decimal_text(n: nat) -> Seq<char>
    decreases n,
{
    if n < 10 {
        seq![digit_char(n)]
    } else {
        decimal_text(n / 10).push(digit_char(n % 10))
    }
}

/// `n` in decimal, with zeros in front up to `width` characters.
pub open spec fn zero_padded(n: nat, width: nat) -> Seq<char> {
    let t = decimal_text(n);
    if t.len() >= width {
        t
    } else {
        Seq::new((width - t.len()) as nat, |i: int| '0') + t
    }
}

/// Whether `c` has the Unicode `White_Space` property: U+0009..U+000D,
/// U+0020, U+0085, U+00A0, U+1680, U+2000..U+200A, U+2028, U+2029, U+202F,
/// U+205F and U+3000.
pub open spec fn unicode_white_space(c: char) -> bool {
    let n = c as u32;
    ||| 0x9 <= n <= 0xD
    ||| n == 0x20
    ||| n == 0x85
    ||| n == 0xA0
    ||| n == 0x1680
    ||| 0x2000 <= n <= 0x200A
    ||| n == 0x2028
    ||| n == 0x2029
    ||| n == 0x202F
    ||| n == 0x205F
    ||| n == 0x3000
}

/// A field is blank when it holds only white space (the empty text included).
pub open spec fn is_blank(s: Seq<char>) -> bool {
    forall|i: int| 0 <= i < s.len() ==> unicode_white_space(#[trigger] s[i])
}

/// Calls `char::is_whitespace`; claims that it answers whether the character
/// has the Unicode `White_Space` property, the 25 code points listed at
/// `unicode_white_space`.
#[verifier::external_body]
fn char_is_whitespace(c: char) -> (b: bool)
    ensures
        b == unicode_white_space(c),
{
    c.is_whitespace()
}

/// Whether `s.trim()` would be empty: every character is white space.
pub fn trims_to_empty(s: &str) -> (b: bool)
    ensures
        b == is_blank(s@),
{
    broadcast use vstd::string::group_string_axioms;

    let ghost text = s@;
    for c in it: s.chars()
        invariant
            text == s@,
            it.seq() == text,
            forall|j: int| 0 <= j < it.index() ==> unicode_white_space(#[trigger] text[j]),
    {
        if !char_is_whitespace(c) {
            assert(text[it.index() as int] == c);
            return false;
        }
    }
    true
}

fn digit_str(d: u64) -> (r: &'static str)
    requires
        d < 10,
    ensures
        r@ == seq![digit_char(d as nat)],
{
    if d == 0 {
        proof { reveal_strlit("0"); }
        "0"
    } else if d == 1 {
        proof { reveal_strlit("1"); }
        "1"
    } else if d == 2 {
        proof { reveal_strlit("2"); }
        "2"
    } else if d == 3 {
        proof { reveal_strlit("3"); }
        "3"
    } else if d == 4 {
        proof { reveal_strlit("4"); }
        "4"
    } else if d == 5 {
        proof { reveal_strlit("5"); }
        "5"
    } else if d == 6 {
        proof { reveal_strlit("6"); }
        "6"
    } else if d == 7 {
        proof { reveal_strlit("7"); }
        "7"
    } else if d == 8 {
        proof { reveal_strlit("8"); }
        "8"
    } else {
        proof { reveal_strlit("9"); }
        "9"
    }
}

/// `n` in decimal with zeros in front up to `width` characters (`{:0width$}`).
pub fn u64_text_zero_padded(n: u64, width: usize) -> (s: String)
    ensures
        s@ == zero_padded(n as nat, width as nat),
{
    let digits = u64_text(n);
    let len = digits.as_str().unicode_len();
    let mut s = String::new();
    let mut i: usize = len;
    proof {
        assert(s@ =~= Seq::new(0, |j: int| '0'));
    }
    while i < width
        invariant
            len == decimal_text(n as nat).len(),
            len <= i,
            i <= width || len > width,
            len >= width ==> i == len,
            s@ == Seq::new((i - len) as nat, |j: int| '0'),
        decreases width - i,
    {
        s.append("0");
        proof {
            reveal_strlit("0");
            assert(s@ =~= Seq::new((i + 1 - len) as nat, |j: int| '0'));
        }
        i = i + 1;
    }
    s.append(digits.as_str());
    proof {
        if len >= width {
            assert(s@ =~= decimal_text(n as nat));
        } else {
            assert(s@ =~= Seq::new((width - len) as nat, |j: int| '0') + decimal_text(n as nat));
        }
    }
    s
}

/// `n.to_string()` for a `u64`.
pub fn u64_text(n: u64) -> (s: String)
    ensures
        s@ == decimal_text(n as nat),
    decreases n,
{
    let mut s = if n < 10 {
        String::new()
    } else {
        u64_text(n / 10)
    };
    s.append(digit_str(n % 10));
    proof {
        if n < 10 {
            assert(s@ =~= seq![digit_char(n as nat)]);
        } else {
            assert(s@ =~= decimal_text((n / 10) as nat).push(digit_char((n % 10) as nat)));
        }
    }
    s
}

} // verus!
