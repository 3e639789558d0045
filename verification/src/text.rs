//! Text as a sequence of characters.
//!
//! Strings are taken apart into characters, worked on as sequences, and put
//! back together, so every contract speaks of `Seq<char>`.

use vstd::prelude::*;

verus! {

/// Unicode's `White_Space` property.
pub open spec fn is_white_space(c: char) -> bool {
    ||| '\u{9}' <= c <= '\u{d}'
    ||| c == '\u{20}'
    ||| c == '\u{85}'
    ||| c == '\u{a0}'
    ||| c == '\u{1680}'
    ||| '\u{2000}' <= c <= '\u{200a}'
    ||| c == '\u{2028}'
    ||| c == '\u{2029}'
    ||| c == '\u{202f}'
    ||| c == '\u{205f}'
    ||| c == '\u{3000}'
}

/// Unicode's `Cc` category: the C0 and C1 control characters and delete.
pub open spec fn is_control(c: char) -> bool {
    ||| c <= '\u{1f}'
    ||| '\u{7f}' <= c <= '\u{9f}'
}

/// Whether a character is white space.
pub fn white_space(c: char) -> (r: bool)
    ensures
        r == is_white_space(c),
{
    ('\u{9}' <= c && c <= '\u{d}') || c == '\u{20}' || c == '\u{85}' || c == '\u{a0}'
        || c == '\u{1680}' || ('\u{2000}' <= c && c <= '\u{200a}') || c == '\u{2028}'
        || c == '\u{2029}' || c == '\u{202f}' || c == '\u{205f}' || c == '\u{3000}'
}

/// Whether a character is a control character.
pub fn control(c: char) -> (r: bool)
    ensures
        r == is_control(c),
{
    c <= '\u{1f}' || ('\u{7f}' <= c && c <= '\u{9f}')
}

/// The characters of a string, in order.
pub fn chars_of(s: &str) -> (v: Vec<char>)
    ensures
        v@ == s@,
{
    let mut v: Vec<char> = Vec::new();
    for c in it: s.chars()
        invariant
            it.seq() == s@,
            v@ == s@.take(it.index()),
    {
        v.push(c);
    }
    v
}

/// Appends one character: `String::push`.
#[verifier::external_body]
fn push_char(s: &mut String, c: char)
    ensures
        final(s)@ == old(s)@.push(c),
{
    s.push(c);
}

/// The string made of these characters.
pub fn string_of(v: &[char]) -> (s: String)
    ensures
        s@ == v@,
{
    let mut s: String = String::new();
    let mut i: usize = 0;
    while i < v.len()
        invariant
            i <= v@.len(),
            s@ == v@.take(i as int),
        decreases v@.len() - i,
    {
        push_char(&mut s, v[i]);
        i += 1;
    }
    s
}

/// Whether every character is ASCII.
pub open spec fn is_ascii(s: Seq<char>) -> bool {
    forall|i: int| 0 <= i < s.len() ==> (#[trigger] s[i]) <= '\u{7f}'
}

/// An ASCII capital as its small letter; anything else unchanged.
pub open spec fn lower_char(c: char) -> char {
    if 'A' <= c <= 'Z' {
        (c as u8 + 32) as char
    } else {
        c
    }
}

/// An ASCII small letter as its capital; anything else unchanged.
pub open spec fn upper_char(c: char) -> char {
    if 'a' <= c <= 'z' {
        (c as u8 - 32) as char
    } else {
        c
    }
}

/// Every ASCII capital replaced by its small letter.
pub open spec fn ascii_lowered(s: Seq<char>) -> Seq<char> {
    s.map_values(|c: char| lower_char(c))
}

/// Every ASCII small letter replaced by its capital.
pub open spec fn ascii_uppered(s: Seq<char>) -> Seq<char> {
    s.map_values(|c: char| upper_char(c))
}

/// Lowers one character.
pub fn to_lower_char(c: char) -> (r: char)
    ensures
        r == lower_char(c),
{
    if 'A' <= c && c <= 'Z' {
        (c as u8 + 32) as char
    } else {
        c
    }
}

/// Raises one character.
pub fn to_upper_char(c: char) -> (r: char)
    ensures
        r == upper_char(c),
{
    if 'a' <= c && c <= 'z' {
        (c as u8 - 32) as char
    } else {
        c
    }
}

/// The string with its ASCII capitals lowered.
pub fn to_ascii_lower(s: &str) -> (r: String)
    ensures
        r@ == ascii_lowered(s@),
{
    let v: Vec<char> = chars_of(s);
    let mut out: Vec<char> = Vec::new();
    let mut i: usize = 0;
    while i < v.len()
        invariant
            i <= v@.len(),
            out@ == ascii_lowered(v@.take(i as int)),
        decreases v@.len() - i,
    {
        out.push(to_lower_char(v[i]));
        proof {
            assert(v@.take(i + 1) =~= v@.take(i as int).push(v@[i as int]));
        }
        i += 1;
    }
    assert(v@.take(i as int) =~= v@);
    string_of(&out)
}

/// The text cut into runs of `size` characters, the last perhaps shorter,
/// with `separator` between them.
pub open spec fn grouped(s: Seq<char>, size: nat, separator: char) -> Seq<char>
    decreases s.len(),
{
    if size == 0 || s.len() <= size {
        s
    } else {
        s.take(size as int).push(separator) + grouped(s.skip(size as int), size, separator)
    }
}

/// Cuts text into runs of `size` characters with `separator` between them.
pub fn group(v: &[char], size: usize, separator: char) -> (out: Vec<char>)
    requires
        size > 0,
    ensures
        out@ == grouped(v@, size as nat, separator),
{
    let mut out: Vec<char> = Vec::new();
    let mut i: usize = 0;
    let mut run: usize = 0;
    proof {
        assert(v@.skip(0) =~= v@);
    }
    while i < v.len()
        invariant
            size > 0,
            run <= i <= v@.len(),
            run <= size,
            run == 0 ==> i == 0,
            out@.len() >= run,
            out@.skip(out@.len() - run) == v@.subrange(i - run, i as int),
            out@.take(out@.len() - run) + grouped(v@.skip(i - run), size as nat, separator)
                == grouped(v@, size as nat, separator),
        decreases v@.len() - i,
    {
        if run == size {
            proof {
                let rest = v@.skip(i - run);
                let before = out@.take(out@.len() - run);
                assert(rest.take(size as int) =~= out@.skip(out@.len() - run));
                assert(rest.skip(size as int) =~= v@.skip(i as int));
                assert(before + grouped(rest, size as nat, separator) =~= out@.push(separator)
                    + grouped(v@.skip(i as int), size as nat, separator));
            }
            out.push(separator);
            run = 0;
            proof {
                assert(out@.take(out@.len() as int) =~= out@);
            }
        }
        let ghost before = out@;
        out.push(v[i]);
        i += 1;
        run += 1;
        proof {
            assert(out@.take(out@.len() - run) =~= before.take(before.len() - (run - 1)));
            assert(out@.skip(out@.len() - run) =~= v@.subrange(i - run, i as int));
        }
    }
    proof {
        assert(v@.skip(i - run) =~= v@.subrange(i - run, i as int));
        assert(out@ =~= out@.take(out@.len() - run) + out@.skip(out@.len() - run));
    }
    out
}

/// What `str::to_uppercase` gives for text with a character outside ASCII.
pub uninterp spec fn unicode_uppered(s: Seq<char>) -> Seq<char>;

/// The text in capitals: ASCII letters one for one, other scripts as Unicode
/// has it.
pub open spec fn uppered(s: Seq<char>) -> Seq<char> {
    if is_ascii(s) {
        ascii_uppered(s)
    } else {
        unicode_uppered(s)
    }
}

/// `str::to_uppercase`: the capital of each ASCII letter, and Unicode's
/// mapping, named and not spelled out, once other characters are present.
#[verifier::external_body]
pub(crate) fn to_upper(s: &str) -> (r: String)
    ensures
        is_ascii(s@) ==> r@ == ascii_uppered(s@),
        !is_ascii(s@) ==> r@ == unicode_uppered(s@),
{
    s.to_uppercase()
}

/// The decimal digits of a number.
pub open spec fn digits(n: nat) -> Seq<char>
    decreases n,
{
    if n < 10 {
        seq![('0' as u8 + n) as char]
    } else {
        digits(n / 10).push(('0' as u8 + n % 10) as char)
    }
}

/// A number in decimal.
pub fn decimal(n: u64) -> (s: String)
    ensures
        s@ == digits(n as nat),
{
    let v: Vec<char> = decimal_chars(n);
    string_of(&v)
}

fn decimal_chars(n: u64) -> (v: Vec<char>)
    ensures
        v@ == digits(n as nat),
    decreases n,
{
    let last: char = (48u8 + (n % 10) as u8) as char;
    let mut v: Vec<char> = if n < 10 {
        Vec::new()
    } else {
        decimal_chars(n / 10)
    };
    v.push(last);
    v
}

/// The octal digits of a number.
pub open spec fn octal_digits(n: nat) -> Seq<char>
    decreases n,
{
    if n < 8 {
        seq![('0' as u8 + n) as char]
    } else {
        octal_digits(n / 8).push(('0' as u8 + n % 8) as char)
    }
}

/// A number in octal.
pub fn octal(n: u32) -> (s: String)
    ensures
        s@ == octal_digits(n as nat),
{
    let v: Vec<char> = octal_chars(n);
    string_of(&v)
}

fn octal_chars(n: u32) -> (v: Vec<char>)
    ensures
        v@ == octal_digits(n as nat),
    decreases n,
{
    let last: char = (48u8 + (n % 8) as u8) as char;
    let mut v: Vec<char> = if n < 8 {
        Vec::new()
    } else {
        octal_chars(n / 8)
    };
    v.push(last);
    v
}

/// The text without white space at the front.
pub open spec fn trimmed_start(s: Seq<char>) -> Seq<char>
    decreases s.len(),
{
    if s.len() > 0 && is_white_space(s[0]) {
        trimmed_start(s.skip(1))
    } else {
        s
    }
}

/// The text without white space at the back.
pub open spec fn trimmed_end(s: Seq<char>) -> Seq<char>
    decreases s.len(),
{
    if s.len() > 0 && is_white_space(s.last()) {
        trimmed_end(s.drop_last())
    } else {
        s
    }
}

/// The text without white space at either end.
pub open spec fn trimmed(s: Seq<char>) -> Seq<char> {
    trimmed_end(trimmed_start(s))
}

/// Trims white space from both ends.
pub fn trim(s: &str) -> (r: String)
    ensures
        r@ == trimmed(s@),
{
    let v: Vec<char> = chars_of(s);
    let mut from: usize = 0;
    assert(v@.skip(0) =~= v@);
    while from < v.len() && white_space(v[from])
        invariant
            from <= v@.len(),
            trimmed_start(v@.skip(from as int)) == trimmed_start(v@),
        decreases v@.len() - from,
    {
        assert(v@.skip(from as int).skip(1) =~= v@.skip(from + 1));
        from += 1;
    }
    let mut to: usize = v.len();
    assert(v@.subrange(from as int, to as int) =~= v@.skip(from as int));
    while to > from && white_space(v[to - 1])
        invariant
            from <= to <= v@.len(),
            trimmed_end(v@.subrange(from as int, to as int)) == trimmed(v@),
        decreases to - from,
    {
        assert(v@.subrange(from as int, to as int).drop_last() =~= v@.subrange(
            from as int,
            to - 1,
        ));
        to -= 1;
    }
    string_of(vstd::slice::slice_subrange(v.as_slice(), from, to))
}

/// Trimming leaves no white space at either end.
pub proof fn lemma_trimmed_ends(s: Seq<char>)
    ensures
        trimmed(s).len() > 0 ==> !is_white_space(trimmed(s)[0]) && !is_white_space(
            trimmed(s).last(),
        ),
{
    lemma_trimmed_start(s);
    lemma_trimmed_end(trimmed_start(s));
}

proof fn lemma_trimmed_start(s: Seq<char>)
    ensures
        trimmed_start(s).len() > 0 ==> !is_white_space(trimmed_start(s)[0]),
    decreases s.len(),
{
    if s.len() > 0 && is_white_space(s[0]) {
        lemma_trimmed_start(s.skip(1));
    }
}

proof fn lemma_trimmed_end(s: Seq<char>)
    ensures
        trimmed_end(s).len() > 0 ==> trimmed_end(s)[0] == s[0] && !is_white_space(
            trimmed_end(s).last(),
        ),
    decreases s.len(),
{
    if s.len() > 0 && is_white_space(s.last()) {
        lemma_trimmed_end(s.drop_last());
    }
}

/// A text without white space at its ends is its own trimmed form.
pub proof fn lemma_trimmed_is_trim(s: Seq<char>)
    ensures
        s.len() > 0 && !is_white_space(s[0]) && !is_white_space(s.last()) ==> trimmed(s) == s,
{
}

/// What the debug form of a string is: the text in quotes, with escapes.
pub uninterp spec fn quoted_text(s: Seq<char>) -> Seq<char>;

/// The `Debug` rendering of a `str`, named and not spelled out.
#[verifier::external_body]
pub(crate) fn quoted(s: &str) -> (r: String)
    ensures
        r@ == quoted_text(s@),
{
    format!("{s:?}")
}

/// Whether two strings are the same text.
pub fn same(a: &str, b: &str) -> (r: bool)
    ensures
        r == (a@ == b@),
{
    let x: Vec<char> = chars_of(a);
    let y: Vec<char> = chars_of(b);
    if x.len() != y.len() {
        return false;
    }
    let mut i: usize = 0;
    while i < x.len()
        invariant
            i <= x@.len() == y@.len(),
            x@ == a@,
            y@ == b@,
            forall|k: int| 0 <= k < i ==> x@[k] == y@[k],
        decreases x@.len() - i,
    {
        if x[i] != y[i] {
            return false;
        }
        i += 1;
    }
    assert(x@ =~= y@);
    true
}

/// Two texts, one after the other.
pub fn join(a: &str, b: &str) -> (r: String)
    ensures
        r@ == a@ + b@,
{
    let mut r: String = String::from_str(a);
    r.append(b);
    r
}

/// Whether `a` comes before `b`, character by character, a prefix first.
pub open spec fn precedes(a: Seq<char>, b: Seq<char>) -> bool
    decreases a.len(),
{
    if b.len() == 0 {
        false
    } else if a.len() == 0 {
        true
    } else {
        a[0] < b[0] || (a[0] == b[0] && precedes(a.skip(1), b.skip(1)))
    }
}

/// Text order is irreflexive, asymmetric and total.
pub proof fn lemma_precedes_total(a: Seq<char>, b: Seq<char>)
    ensures
        !precedes(a, a),
        !(precedes(a, b) && precedes(b, a)),
        a != b ==> precedes(a, b) || precedes(b, a),
    decreases a.len(),
{
    if a.len() > 0 && b.len() > 0 {
        lemma_precedes_total(a.skip(1), b.skip(1));
        if a[0] == b[0] && a.skip(1) == b.skip(1) {
            assert(a =~= seq![a[0]] + a.skip(1));
            assert(b =~= seq![b[0]] + b.skip(1));
        }
    } else if a.len() > 0 {
        lemma_precedes_total(a.skip(1), a.skip(1));
    } else if b.len() == 0 {
        assert(a =~= b);
    }
}

/// Text order is transitive.
pub proof fn lemma_precedes_transitive(a: Seq<char>, b: Seq<char>, c: Seq<char>)
    requires
        precedes(a, b),
        precedes(b, c),
    ensures
        precedes(a, c),
    decreases a.len(),
{
    if a.len() > 0 && a[0] == b[0] && b[0] == c[0] {
        lemma_precedes_transitive(a.skip(1), b.skip(1), c.skip(1));
    }
}

/// Whether one text comes before another.
pub fn before(a: &str, b: &str) -> (r: bool)
    ensures
        r == precedes(a@, b@),
{
    let x: Vec<char> = chars_of(a);
    let y: Vec<char> = chars_of(b);
    let mut i: usize = 0;
    assert(x@.skip(0) =~= x@ && y@.skip(0) =~= y@);
    while i < x.len() && i < y.len()
        invariant
            i <= x@.len(),
            i <= y@.len(),
            x@ == a@,
            y@ == b@,
            precedes(x@.skip(i as int), y@.skip(i as int)) == precedes(a@, b@),
        decreases x@.len() - i,
    {
        if x[i] != y[i] {
            return x[i] < y[i];
        }
        assert(x@.skip(i as int).skip(1) =~= x@.skip(i + 1));
        assert(y@.skip(i as int).skip(1) =~= y@.skip(i + 1));
        i += 1;
    }
    i < y.len()
}

/// Whether a character occurs in a text.
pub fn contains_char(s: &str, c: char) -> (r: bool)
    ensures
        r == s@.contains(c),
{
    let v: Vec<char> = chars_of(s);
    let mut i: usize = 0;
    while i < v.len()
        invariant
            i <= v@.len(),
            v@ == s@,
            forall|k: int| 0 <= k < i ==> v@[k] != c,
        decreases v@.len() - i,
    {
        if v[i] == c {
            assert(s@[i as int] == c);
            return true;
        }
        i += 1;
    }
    false
}

/// Whether a text begins with another.
pub open spec fn begins_with(s: Seq<char>, prefix: Seq<char>) -> bool {
    prefix.len() <= s.len() && s.take(prefix.len() as int) == prefix
}

/// Whether a text ends with another.
pub open spec fn finishes_with(s: Seq<char>, suffix: Seq<char>) -> bool {
    suffix.len() <= s.len() && s.skip(s.len() - suffix.len()) == suffix
}

pub fn starts_with(s: &str, prefix: &str) -> (r: bool)
    ensures
        r == begins_with(s@, prefix@),
{
    let v: Vec<char> = chars_of(s);
    let p: Vec<char> = chars_of(prefix);
    if p.len() > v.len() {
        return false;
    }
    let mut i: usize = 0;
    while i < p.len()
        invariant
            i <= p@.len() <= v@.len(),
            v@ == s@,
            p@ == prefix@,
            forall|k: int| 0 <= k < i ==> v@[k] == p@[k],
        decreases p@.len() - i,
    {
        if v[i] != p[i] {
            assert(s@.take(p@.len() as int)[i as int] != prefix@[i as int]);
            return false;
        }
        i += 1;
    }
    assert(s@.take(p@.len() as int) =~= prefix@);
    true
}

pub fn ends_with(s: &str, suffix: &str) -> (r: bool)
    ensures
        r == finishes_with(s@, suffix@),
{
    let v: Vec<char> = chars_of(s);
    let p: Vec<char> = chars_of(suffix);
    if p.len() > v.len() {
        return false;
    }
    let from: usize = v.len() - p.len();
    let mut i: usize = 0;
    while i < p.len()
        invariant
            i <= p@.len() <= v@.len(),
            from + p.len() == v.len(),
            v@ == s@,
            p@ == suffix@,
            forall|k: int| 0 <= k < i ==> v@[from + k] == p@[k],
        decreases p@.len() - i,
    {
        if v[from + i] != p[i] {
            assert(s@.skip(from as int)[i as int] != suffix@[i as int]);
            return false;
        }
        i += 1;
    }
    assert(s@.skip(from as int) =~= suffix@);
    true
}

/// What follows the last occurrence of a character; the whole text without one.
pub open spec fn after_last(s: Seq<char>, c: char) -> Seq<char>
    decreases s.len(),
{
    if s.len() == 0 || s.last() == c {
        Seq::empty()
    } else {
        after_last(s.drop_last(), c).push(s.last())
    }
}

proof fn lemma_after_last(s: Seq<char>, c: char, from: int)
    requires
        0 <= from <= s.len(),
        from > 0 ==> s[from - 1] == c,
        forall|k: int| from <= k < s.len() ==> s[k] != c,
    ensures
        after_last(s, c) == s.skip(from),
    decreases s.len(),
{
    if from < s.len() {
        lemma_after_last(s.drop_last(), c, from);
        assert(s.skip(from) =~= s.drop_last().skip(from).push(s.last()));
    }
}

pub fn tail_after(s: &str, c: char) -> (r: String)
    ensures
        r@ == after_last(s@, c),
{
    let v: Vec<char> = chars_of(s);
    let mut from: usize = v.len();
    while from > 0 && v[from - 1] != c
        invariant
            from <= v@.len(),
            forall|k: int| from <= k < v@.len() ==> v@[k] != c,
        decreases from,
    {
        from -= 1;
    }
    proof {
        lemma_after_last(v@, c, from as int);
        assert(v@.skip(from as int) =~= v@.subrange(from as int, v@.len() as int));
    }
    string_of(vstd::slice::slice_subrange(v.as_slice(), from, v.len()))
}

/// A hexadecimal digit in small letters.
pub open spec fn hex_digit(n: int) -> char {
    if n < 10 {
        ('0' as u8 + n) as char
    } else {
        ('a' as u8 + n - 10) as char
    }
}

fn hex_char(n: u16) -> (c: char)
    requires
        n < 16,
    ensures
        c == hex_digit(n as int),
{
    if n < 10 {
        (48u8 + n as u8) as char
    } else {
        (97u8 + (n as u8 - 10u8)) as char
    }
}

/// Four hexadecimal digits, most significant first.
pub open spec fn four_hex(n: u16) -> Seq<char> {
    seq![
        hex_digit(n as int / 4096),
        hex_digit(n as int / 256 % 16),
        hex_digit(n as int / 16 % 16),
        hex_digit(n as int % 16),
    ]
}

pub fn hex4(n: u16) -> (s: String)
    ensures
        s@ == four_hex(n),
{
    let v: [char; 4] = [
        hex_char(n / 4096),
        hex_char(n / 256 % 16),
        hex_char(n / 16 % 16),
        hex_char(n % 16),
    ];
    assert(v@ =~= four_hex(n));
    string_of(&v)
}

/// Whether a character is a hexadecimal digit.
pub open spec fn is_hex(c: char) -> bool {
    ('0' <= c && c <= '9') || ('a' <= c && c <= 'f') || ('A' <= c && c <= 'F')
}

/// Trimming takes white space off both ends and nothing else: what it leaves is
/// a part of the text that neither begins nor ends with white space, and all
/// that stands before and behind it is white space.
pub proof fn law_trimming_takes_white_space_off_the_ends(s: Seq<char>)
    ensures
        exists|from: int, to: int|
            0 <= from <= to <= s.len() && trimmed(s) == #[trigger] s.subrange(from, to) && (forall|
                i: int,
            |
                0 <= i < from || to <= i < s.len() ==> is_white_space(#[trigger] s[i])),
        trimmed(s).len() > 0 ==> !is_white_space(trimmed(s)[0]) && !is_white_space(
            trimmed(s).last(),
        ),
{
    lemma_trimmed_ends(s);
    let from = lemma_trimmed_start_from(s);
    let t = trimmed_start(s);
    let kept = lemma_trimmed_end_to(t);
    let to = from + kept;
    assert(trimmed(s) =~= s.subrange(from, to));
    assert forall|i: int| 0 <= i < from || to <= i < s.len() implies is_white_space(
        #[trigger] s[i],
    ) by {
        if to <= i {
            assert(t[i - from] == s[i]);
        }
    }
}

proof fn lemma_trimmed_start_from(s: Seq<char>) -> (from: int)
    ensures
        0 <= from <= s.len(),
        trimmed_start(s) == s.skip(from),
        forall|i: int| 0 <= i < from ==> is_white_space(#[trigger] s[i]),
    decreases s.len(),
{
    if s.len() > 0 && is_white_space(s[0]) {
        let rest = s.skip(1);
        let n = lemma_trimmed_start_from(rest);
        assert(rest.skip(n) =~= s.skip(n + 1));
        assert forall|i: int| 0 <= i < n + 1 implies is_white_space(#[trigger] s[i]) by {
            if i > 0 {
                assert(rest[i - 1] == s[i]);
            }
        }
        n + 1
    } else {
        assert(s.skip(0) =~= s);
        0
    }
}

proof fn lemma_trimmed_end_to(s: Seq<char>) -> (to: int)
    ensures
        0 <= to <= s.len(),
        trimmed_end(s) == s.take(to),
        forall|i: int| to <= i < s.len() ==> is_white_space(#[trigger] s[i]),
    decreases s.len(),
{
    if s.len() > 0 && is_white_space(s.last()) {
        let front = s.drop_last();
        let n = lemma_trimmed_end_to(front);
        assert(front.take(n) =~= s.take(n));
        assert forall|i: int| n <= i < s.len() implies is_white_space(#[trigger] s[i]) by {
            if i < front.len() {
                assert(front[i] == s[i]);
            }
        }
        n
    } else {
        assert(s.take(s.len() as int) =~= s);
        s.len() as int
    }
}

/// The number that decimal digits spell.
pub open spec fn spelled(digits: Seq<char>) -> int
    decreases digits.len(),
{
    if digits.len() == 0 {
        0
    } else {
        10 * spelled(digits.drop_last()) + (digits.last() as int - 48)
    }
}

/// A number is written in decimal digits that spell it, without a leading zero.
pub proof fn law_digits_spell_the_number(n: nat)
    ensures
        spelled(digits(n)) == n,
        digits(n).len() > 0,
        forall|i: int| 0 <= i < digits(n).len() ==> '0' <= #[trigger] digits(n)[i] <= '9',
        digits(n).len() > 1 ==> digits(n)[0] != '0',
        n > 0 ==> digits(n)[0] != '0',
    decreases n,
{
    reveal_with_fuel(spelled, 2);
    if n < 10 {
        assert(digits(n).drop_last() =~= Seq::empty());
    } else {
        law_digits_spell_the_number(n / 10);
        assert(digits(n).drop_last() =~= digits(n / 10));
    }
}

/// Text order is decided by the first character that differs, and a text comes
/// before every longer one that begins with it.
pub proof fn law_text_order_is_by_the_first_difference(a: Seq<char>, b: Seq<char>)
    ensures
        precedes(a, b) <==> exists|n: int|
            0 <= n <= a.len() && n < b.len() && #[trigger] a.take(n) == b.take(n) && (n == a.len()
                || a[n] < b[n]),
    decreases a.len(),
{
    if a.len() > 0 && b.len() > 0 {
        let (x, y) = (a.skip(1), b.skip(1));
        law_text_order_is_by_the_first_difference(x, y);
        if precedes(a, b) {
            if a[0] < b[0] {
                assert(a.take(0) =~= b.take(0));
            } else {
                let n = choose|n: int|
                    0 <= n <= x.len() && n < y.len() && #[trigger] x.take(n) == y.take(n) && (n
                        == x.len() || x[n] < y[n]);
                assert(a.take(n + 1) =~= seq![a[0]] + x.take(n));
                assert(b.take(n + 1) =~= seq![b[0]] + y.take(n));
                assert(a.take(n + 1) == b.take(n + 1));
            }
        }
        if exists|n: int|
            0 <= n <= a.len() && n < b.len() && #[trigger] a.take(n) == b.take(n) && (n == a.len()
                || a[n] < b[n]) {
            let n = choose|n: int|
                0 <= n <= a.len() && n < b.len() && #[trigger] a.take(n) == b.take(n) && (n
                    == a.len() || a[n] < b[n]);
            if n > 0 {
                assert(a.take(n)[0] == b.take(n)[0]);
                assert(x.take(n - 1) =~= a.take(n).skip(1));
                assert(y.take(n - 1) =~= b.take(n).skip(1));
                assert(x.take(n - 1) == y.take(n - 1));
            }
        }
    } else if a.len() == 0 && b.len() > 0 {
        assert(a.take(0) =~= b.take(0));
    }
}

/// What follows the last separator is the end of the text that is free of it and
/// either has the separator right before it or is all of the text.
pub proof fn law_the_tail_follows_the_last_separator(s: Seq<char>, c: char)
    ensures
        ({
            let tail = after_last(s, c);
            let from = s.len() - tail.len();
            &&& tail.len() <= s.len()
            &&& tail == s.skip(from)
            &&& !tail.contains(c)
            &&& from > 0 ==> s[from - 1] == c
        }),
    decreases s.len(),
{
    if s.len() > 0 && s.last() != c {
        let front = s.drop_last();
        law_the_tail_follows_the_last_separator(front, c);
        let tail = after_last(s, c);
        let from = s.len() - tail.len();
        assert(tail =~= s.skip(from));
        if tail.contains(c) {
            let i = choose|i: int| 0 <= i < tail.len() && tail[i] == c;
            assert(after_last(front, c)[i] == c);
        }
        if from > 0 {
            assert(front[from - 1] == s[from - 1]);
        }
    } else {
        assert(after_last(s, c) =~= s.skip(s.len() as int));
    }
}

/// The value of a hex digit.
pub open spec fn hex_value(c: char) -> int {
    if '0' <= c <= '9' {
        c as int - 48
    } else if 'a' <= c <= 'f' {
        c as int - 87
    } else {
        c as int - 55
    }
}

/// Four hex digits, small letters among them, spell their number, highest first.
pub proof fn law_four_hex_digits_spell_the_number(n: u16)
    ensures
        four_hex(n).len() == 4,
        forall|i: int|
            0 <= i < 4 ==> ('0' <= #[trigger] four_hex(n)[i] <= '9' || 'a' <= four_hex(n)[i]
                <= 'f'),
        4096 * hex_value(four_hex(n)[0]) + 256 * hex_value(four_hex(n)[1]) + 16 * hex_value(
            four_hex(n)[2],
        ) + hex_value(four_hex(n)[3]) == n,
{
    let x = n as int;
    let (a, b, c, d) = (x / 4096, x / 256 % 16, x / 16 % 16, x % 16);
    lemma_hex_places(n);
    lemma_hex_digit(a);
    lemma_hex_digit(b);
    lemma_hex_digit(c);
    lemma_hex_digit(d);
    let f = four_hex(n);
    assert(f[0] == hex_digit(a) && f[1] == hex_digit(b) && f[2] == hex_digit(c) && f[3]
        == hex_digit(d));
}

proof fn lemma_hex_places(n: u16)
    ensures
        ({
            let x = n as int;
            &&& 0 <= x / 4096 < 16
            &&& 4096 * (x / 4096) + 256 * (x / 256 % 16) + 16 * (x / 16 % 16) + x % 16 == x
        }),
{
    let x = n as int;
    let one = x / 16;
    let two = x / 256;
    assert(one == 16 * two + one % 16 && x == 16 * one + x % 16) by {
        assert(two == one / 16);
    }
    assert(two == 16 * (x / 4096) + two % 16) by {
        assert(x / 4096 == two / 16);
    }
}

proof fn lemma_hex_digit(n: int)
    requires
        0 <= n < 16,
    ensures
        hex_value(hex_digit(n)) == n,
        '0' <= hex_digit(n) <= '9' || 'a' <= hex_digit(n) <= 'f',
{
}

/// Grouping by fours puts the separator behind every fourth character but the
/// last, and leaves the characters in order.
pub proof fn law_fours_are_hyphenated(s: Seq<char>, separator: char, i: int)
    requires
        s.len() > 0,
    ensures
        grouped(s, 4, separator).len() == s.len() + (s.len() - 1) / 4,
        0 <= i < grouped(s, 4, separator).len() ==> grouped(s, 4, separator)[i] == if i % 5 == 4 {
            separator
        } else {
            s[i - i / 5]
        },
    decreases s.len(),
{
    if s.len() > 4 {
        let rest = s.skip(4);
        law_fours_are_hyphenated(rest, separator, i - 5);
        let g = grouped(s, 4, separator);
        if 5 <= i < g.len() {
            assert(g[i] == grouped(rest, 4, separator)[i - 5]);
            assert((i - 5) % 5 == i % 5 && (i - 5) / 5 == i / 5 - 1);
            if i % 5 != 4 {
                assert(0 <= (i - 5) - (i - 5) / 5 < rest.len());
                assert(rest[(i - 5) - (i - 5) / 5] == s[i - i / 5]);
            }
        }
    }
}


/// Whether a text holds another.
pub open spec fn holds(s: Seq<char>, part: Seq<char>) -> bool {
    exists|a: Seq<char>, b: Seq<char>| s == #[trigger] (a + part + b)
}

/// A text holds each part that it is put together from.
pub proof fn lemma_holds(s: Seq<char>, a: Seq<char>, part: Seq<char>, b: Seq<char>)
    requires
        s =~= a + part + b,
    ensures
        holds(s, part),
{
}

/// Only the English letters have another case, and each is paired with the letter
/// at the same place in the alphabet.
pub proof fn law_case_is_of_english_letters(c: char)
    ensures
        lower_char(c) as int == if 'A' <= c <= 'Z' {
            c as int + 32
        } else {
            c as int
        },
        upper_char(c) as int == if 'a' <= c <= 'z' {
            c as int - 32
        } else {
            c as int
        },
        lower_char(upper_char(c)) == lower_char(c),
        upper_char(lower_char(c)) == upper_char(c),
{
}

/// A text keeps its length and its other characters when its case changes.
pub proof fn law_case_changes_in_place(s: Seq<char>, i: int)
    requires
        0 <= i < s.len(),
    ensures
        ascii_lowered(s).len() == s.len(),
        ascii_uppered(s).len() == s.len(),
        ascii_lowered(s)[i] == lower_char(s[i]),
        ascii_uppered(s)[i] == upper_char(s[i]),
        is_ascii(s) ==> (s[i] as int) < 128,
{
}

/// What octal digits spell, read from the left.
pub open spec fn spelled_octal(digits: Seq<char>) -> int
    decreases digits.len(),
{
    if digits.len() == 0 {
        0
    } else {
        8 * spelled_octal(digits.drop_last()) + (digits.last() as int - 48)
    }
}

/// The octal digits of a number spell it, each is from 0 to 7, and no number but
/// zero begins with a zero.
pub proof fn law_octal_digits_spell_the_number(n: nat)
    ensures
        spelled_octal(octal_digits(n)) == n,
        octal_digits(n).len() > 0,
        octal_digits(n)[0] == '0' <==> n == 0,
        forall|i: int| 0 <= i < octal_digits(n).len() ==> '0' <= #[trigger] octal_digits(n)[i] <= '7',
    decreases n,
{
    if n >= 8 {
        law_octal_digits_spell_the_number(n / 8);
        let front = octal_digits(n / 8);
        assert(octal_digits(n).drop_last() =~= front);
        assert forall|i: int| 0 <= i < octal_digits(n).len() implies '0'
            <= #[trigger] octal_digits(n)[i] <= '7' by {
            if i < front.len() {
                assert(front[i] == octal_digits(n)[i]);
            }
        }
    } else {
        reveal_with_fuel(spelled_octal, 2);
        assert(octal_digits(n).drop_last() =~= Seq::empty());
    }
}

/// Which characters are white space and which are control characters, by number.
pub proof fn law_white_space_and_control_by_number(c: char)
    ensures
        ({
            let n = c as int;
            &&& is_white_space(c) <==> 9 <= n <= 13 || n == 32 || n == 133 || n == 160 || n == 5760
                || 8192 <= n <= 8202 || n == 8232 || n == 8233 || n == 8239 || n == 8287 || n
                == 12288
            &&& is_control(c) <==> n < 32 || 127 <= n < 160
        }),
{
}

/// A text begins with another, or ends with it, when the rest follows or comes
/// before.
pub proof fn law_a_text_begins_or_ends_with_its_part(s: Seq<char>, part: Seq<char>)
    ensures
        begins_with(s, part) <==> exists|rest: Seq<char>| s == #[trigger] (part + rest),
        finishes_with(s, part) <==> exists|rest: Seq<char>| s == #[trigger] (rest + part),
{
    if begins_with(s, part) {
        assert(s =~= part + s.skip(part.len() as int));
    }
    if exists|rest: Seq<char>| s == #[trigger] (part + rest) {
        let rest = choose|rest: Seq<char>| s == #[trigger] (part + rest);
        assert(s.take(part.len() as int) =~= part);
    }
    if finishes_with(s, part) {
        assert(s =~= s.take(s.len() - part.len()) + part);
    }
    if exists|rest: Seq<char>| s == #[trigger] (rest + part) {
        let rest = choose|rest: Seq<char>| s == #[trigger] (rest + part);
        assert(s.skip(s.len() - part.len()) =~= part);
    }
}

/// English text is raised letter by letter, and raising it again changes nothing.
pub proof fn law_english_text_is_raised_letter_by_letter(s: Seq<char>)
    requires
        forall|i: int| 0 <= i < s.len() ==> (#[trigger] s[i] as int) < 128,
    ensures
        uppered(s) == ascii_uppered(s),
        uppered(uppered(s)) == uppered(s),
{
    assert(is_ascii(s)) by {
        assert forall|i: int| 0 <= i < s.len() implies (#[trigger] s[i]) <= '\u{7f}' by {
            assert((s[i] as int) < 128);
        }
    }
    let t = ascii_uppered(s);
    assert forall|i: int| 0 <= i < t.len() implies (#[trigger] t[i]) <= '\u{7f}' by {
        assert(s[i] <= '\u{7f}');
    }
    assert(is_ascii(t));
    assert(ascii_uppered(t) =~= t);
}
} // verus!
