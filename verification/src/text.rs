//! Text helpers shared by the library: character-level views of strings,
//! string building, ASCII case folding, decimal and hex rendering, and the
//! lexicographic order that Rust's `str` comparison uses.

use vstd::prelude::*;
use vstd::string::*;

verus! {

/// ASCII lowercase of one character (non-ASCII characters are unchanged),
/// exactly as `char::to_ascii_lowercase` behaves.
pub open spec fn lower_char(c: char) -> char {
    if 'A' <= c && c <= 'Z' {
        ((c as u32) + 32) as char
    } else {
        c
    }
}

/// ASCII lowercase of a whole character sequence (`str::to_ascii_lowercase`).
pub open spec fn lower_seq(s: Seq<char>) -> Seq<char> {
    s.map_values(|c: char| lower_char(c))
}

/// Lexicographic "strictly less" on character sequences. Code-point order
/// coincides with the byte order of the UTF-8 encodings, which is how `str`
/// and `String` compare.
pub open spec fn seq_lt(a: Seq<char>, b: Seq<char>) -> bool
    decreases a.len(),
{
    if b.len() == 0 {
        false
    } else if a.len() == 0 {
        true
    } else if a[0] != b[0] {
        (a[0] as int) < (b[0] as int)
    } else {
        seq_lt(a.drop_first(), b.drop_first())
    }
}

/// `seq_lt` is irreflexive.
pub proof fn lemma_lt_irreflexive(a: Seq<char>)
    ensures
        !seq_lt(a, a),
    decreases a.len(),
{
    if a.len() > 0 {
        lemma_lt_irreflexive(a.drop_first());
    }
}

/// `seq_lt` is asymmetric.
pub proof fn lemma_lt_asymmetric(a: Seq<char>, b: Seq<char>)
    requires
        seq_lt(a, b),
    ensures
        !seq_lt(b, a),
    decreases a.len(),
{
    if a.len() > 0 && b.len() > 0 && a[0] == b[0] {
        lemma_lt_asymmetric(a.drop_first(), b.drop_first());
    }
}

/// `seq_lt` is transitive.
pub proof fn lemma_lt_transitive(a: Seq<char>, b: Seq<char>, c: Seq<char>)
    requires
        seq_lt(a, b),
        seq_lt(b, c),
    ensures
        seq_lt(a, c),
    decreases a.len(),
{
    if a.len() > 0 && b.len() > 0 && c.len() > 0 && a[0] == b[0] && b[0] == c[0] {
        lemma_lt_transitive(a.drop_first(), b.drop_first(), c.drop_first());
    }
}

/// Distinct sequences are ordered one way or the other.
pub proof fn lemma_lt_total(a: Seq<char>, b: Seq<char>)
    requires
        a != b,
    ensures
        seq_lt(a, b) || seq_lt(b, a),
    decreases a.len(),
{
    if a.len() > 0 && b.len() > 0 && a[0] == b[0] {
        if a.drop_first() == b.drop_first() {
            assert(a =~= seq![a[0]] + a.drop_first());
            assert(b =~= seq![b[0]] + b.drop_first());
        }
        lemma_lt_total(a.drop_first(), b.drop_first());
    } else if a.len() == 0 && b.len() == 0 {
        assert(a =~= b);
    } else if a.len() > 0 && b.len() > 0 {
        let x = a[0] as int;
        let y = b[0] as int;
        assert(x != y);
    }
}

/// Decimal rendering of a natural number (no sign, no leading zeros).
pub open spec fn decimal(n: nat) -> Seq<char>
    decreases n,
{
    if n < 10 {
        seq![digit_char(n)]
    } else {
        decimal(n / 10).push(digit_char(n % 10))
    }
}

/// The character of one decimal digit.
pub open spec fn digit_char(d: nat) -> char {
    ((d + 48) as u32) as char
}

/// Lowercase hex digit of a value below 16.
pub open spec fn hex_digit(d: nat) -> char {
    if d < 10 {
        ((d + 48) as u32) as char
    } else {
        ((d + 87) as u32) as char
    }
}

/// Two lowercase hex digits of one byte (`{b:02x}`).
pub open spec fn hex_byte(b: u8) -> Seq<char> {
    seq![hex_digit((b / 16) as nat), hex_digit((b % 16) as nat)]
}

/// Lowercase hex of a byte sequence, two digits per byte.
pub open spec fn hex_seq(bytes: Seq<u8>) -> Seq<char>
    decreases bytes.len(),
{
    if bytes.len() == 0 {
        Seq::empty()
    } else {
        hex_seq(bytes.drop_last()) + hex_byte(bytes.last())
    }
}

/// Hex text has two digits per byte.
pub proof fn lemma_hex_seq_len(bytes: Seq<u8>)
    ensures
        hex_seq(bytes).len() == 2 * bytes.len(),
    decreases bytes.len(),
{
    if bytes.len() > 0 {
        lemma_hex_seq_len(bytes.drop_last());
    }
}

/// Appends one character to a string (`String::push`).
#[verifier::external_body]
pub(crate) fn push_char(s: &mut String, c: char)
    ensures
        final(s)@ == old(s)@.push(c),
{
    s.push(c);
}

/// A fresh string with the characters of `s`.
pub fn to_string_of(s: &str) -> (r: String)
    ensures
        r@ == s@,
{
    String::from_str(s)
}

/// The characters of a string slice, in order.
pub fn chars_of(s: &str) -> (v: Vec<char>)
    ensures
        v@ == s@,
{
    let n = s.unicode_len();
    let mut v: Vec<char> = Vec::new();
    let mut i: usize = 0;
    while i < n
        invariant
            n == s@.len(),
            i <= n,
            v@ == s@.subrange(0, i as int),
        decreases n - i,
    {
        let c = s.get_char(i);
        v.push(c);
        i = i + 1;
        assert(v@ =~= s@.subrange(0, i as int));
    }
    assert(v@ =~= s@);
    v
}

/// Builds a string from a character vector.
pub fn string_from_chars(v: &Vec<char>) -> (s: String)
    ensures
        s@ == v@,
{
    let mut s = String::new();
    let mut i: usize = 0;
    while i < v.len()
        invariant
            i <= v.len(),
            s@ == v@.subrange(0, i as int),
        decreases v.len() - i,
    {
        push_char(&mut s, v[i]);
        i = i + 1;
        assert(s@ =~= v@.subrange(0, i as int));
    }
    assert(v@ =~= v@.subrange(0, v.len() as int));
    s
}

/// Concatenation of two string slices into a new string.
pub fn concat2(a: &str, b: &str) -> (s: String)
    ensures
        s@ == a@ + b@,
{
    let mut s = String::from_str(a);
    s.append(b);
    s
}

/// Concatenation of three string slices into a new string.
pub fn concat3(a: &str, b: &str, c: &str) -> (s: String)
    ensures
        s@ == a@ + b@ + c@,
{
    let mut s = String::from_str(a);
    s.append(b);
    s.append(c);
    s
}

/// Concatenation of five string slices into a new string.
pub fn concat5(a: &str, b: &str, c: &str, d: &str, e: &str) -> (s: String)
    ensures
        s@ == a@ + b@ + c@ + d@ + e@,
{
    let mut s = String::from_str(a);
    s.append(b);
    s.append(c);
    s.append(d);
    s.append(e);
    s
}

/// Whether two string slices hold the same characters.
pub fn str_eq(a: &str, b: &str) -> (r: bool)
    ensures
        r == (a@ == b@),
{
    let x = chars_of(a);
    let y = chars_of(b);
    if x.len() != y.len() {
        return false;
    }
    let mut i: usize = 0;
    while i < x.len()
        invariant
            x@ == a@,
            y@ == b@,
            x.len() == y.len(),
            i <= x.len(),
            forall|j: int| 0 <= j < i ==> x@[j] == y@[j],
        decreases x.len() - i,
    {
        if x[i] != y[i] {
            return false;
        }
        i = i + 1;
    }
    assert(x@ =~= y@);
    true
}

/// ASCII lowercase of a string (`str::to_ascii_lowercase`).
pub fn ascii_lowercase(s: &str) -> (r: Vec<char>)
    ensures
        r@ == lower_seq(s@),
{
    let v = chars_of(s);
    let mut out: Vec<char> = Vec::new();
    let mut i: usize = 0;
    while i < v.len()
        invariant
            v@ == s@,
            i <= v.len(),
            out@ == lower_seq(v@.subrange(0, i as int)),
        decreases v.len() - i,
    {
        let c = v[i];
        let l = if 'A' <= c && c <= 'Z' {
            char_from_code((c as u32) + 32)
        } else {
            c
        };
        out.push(l);
        i = i + 1;
        assert(out@ =~= lower_seq(v@.subrange(0, i as int)));
    }
    assert(v@.subrange(0, v.len() as int) =~= v@);
    out
}

/// The character with a code point known to be valid ASCII.
fn char_from_code(code: u32) -> (c: char)
    requires
        code < 128,
    ensures
        c == code as char,
{
    let b: u8 = code as u8;
    b as char
}

/// Lexicographic "strictly less" on strings, as `<` on `str`.
pub fn str_lt(a: &str, b: &str) -> (r: bool)
    ensures
        r == seq_lt(a@, b@),
{
    let x = chars_of(a);
    let y = chars_of(b);
    chars_lt(&x, &y)
}

/// Lexicographic "strictly less" on character vectors.
pub fn chars_lt(x: &Vec<char>, y: &Vec<char>) -> (r: bool)
    ensures
        r == seq_lt(x@, y@),
{
    let mut i: usize = 0;
    assert(x@.subrange(0, x.len() as int) =~= x@);
    assert(y@.subrange(0, y.len() as int) =~= y@);
    while i < x.len() && i < y.len()
        invariant
            i <= x.len(),
            i <= y.len(),
            forall|j: int| 0 <= j < i ==> x@[j] == y@[j],
            seq_lt(x@, y@) == seq_lt(x@.subrange(i as int, x.len() as int), y@.subrange(i as int, y.len() as int)),
        decreases x.len() - i,
    {
        if x[i] != y[i] {
            let ghost xs = x@.subrange(i as int, x.len() as int);
            let ghost ys = y@.subrange(i as int, y.len() as int);
            assert(xs[0] == x@[i as int]);
            assert(ys[0] == y@[i as int]);
            return x[i] < y[i];
        }
        proof {
            let xs = x@.subrange(i as int, x.len() as int);
            let ys = y@.subrange(i as int, y.len() as int);
            assert(xs.drop_first() =~= x@.subrange(i + 1, x.len() as int));
            assert(ys.drop_first() =~= y@.subrange(i + 1, y.len() as int));
        }
        i = i + 1;
    }
    proof {
        let xs = x@.subrange(i as int, x.len() as int);
        let ys = y@.subrange(i as int, y.len() as int);
        assert(xs.len() == 0 || ys.len() == 0);
    }
    i < y.len()
}

/// Decimal rendering of an unsigned integer (`{n}` for integers).
pub fn decimal_string(n: u64) -> (s: String)
    ensures
        s@ == decimal(n as nat),
    decreases n,
{
    if n < 10 {
        let mut s = String::new();
        push_char(&mut s, char_from_code((n as u32) + 48));
        proof {
            assert(s@ =~= seq![digit_char(n as nat)]);
        }
        s
    } else {
        let mut s = decimal_string(n / 10);
        push_char(&mut s, char_from_code(((n % 10) as u32) + 48));
        s
    }
}

/// The last `w` decimal digits of `n`, zero-padded (`{n:0w}` when `n` has
/// at most `w` digits).
pub open spec fn padded_decimal(n: nat, w: nat) -> Seq<char>
    decreases w,
{
    if w == 0 {
        Seq::empty()
    } else {
        padded_decimal(n / 10, (w - 1) as nat).push(digit_char(n % 10))
    }
}

/// The last `w` decimal digits of `n`, zero-padded.
pub fn padded_decimal_string(n: u64, w: u32) -> (s: String)
    ensures
        s@ == padded_decimal(n as nat, w as nat),
    decreases w,
{
    if w == 0 {
        let s = String::new();
        assert(s@ =~= Seq::<char>::empty());
        s
    } else {
        let mut s = padded_decimal_string(n / 10, w - 1);
        push_char(&mut s, char_from_code(((n % 10) as u32) + 48));
        s
    }
}

/// Lowercase hex of a byte slice (`{b:02x}` for each byte).
pub fn hex_lower(bytes: &[u8]) -> (s: String)
    ensures
        s@ == hex_seq(bytes@),
{
    let mut s = String::new();
    let mut i: usize = 0;
    while i < bytes.len()
        invariant
            i <= bytes.len(),
            s@ == hex_seq(bytes@.subrange(0, i as int)),
        decreases bytes.len() - i,
    {
        let b = bytes[i];
        let hi = b / 16;
        let lo = b % 16;
        push_char(&mut s, hex_char(hi));
        push_char(&mut s, hex_char(lo));
        proof {
            let pre = bytes@.subrange(0, i as int);
            let post = bytes@.subrange(0, i + 1);
            assert(post.drop_last() =~= pre);
            assert(post.last() == b);
            assert(s@ =~= hex_seq(pre) + hex_byte(b));
        }
        i = i + 1;
    }
    assert(bytes@.subrange(0, bytes.len() as int) =~= bytes@);
    s
}

/// The lowercase hex digit of a value below 16.
pub fn hex_char(d: u8) -> (c: char)
    requires
        d < 16,
    ensures
        c == hex_digit(d as nat),
{
    if d < 10 {
        char_from_code((d as u32) + 48)
    } else {
        char_from_code((d as u32) + 87)
    }
}

} // verus!

verus! {

/// `prefix` + decimal `i` + `suffix`, e.g. `batteries[3].quantity`.
pub fn indexed_field(prefix: &str, i: usize, suffix: &str) -> (r: String)
    ensures
        r@ == prefix@ + decimal(i as nat) + suffix@,
{
    let mut s = String::from_str(prefix);
    let n = decimal_string(i as u64);
    s.append(n.as_str());
    s.append(suffix);
    s
}

} // verus!
