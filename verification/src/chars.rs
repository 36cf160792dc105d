//! Character classes, string comparison and small string builders used by XML
//! name handling.

use vstd::prelude::*;
use vstd::string::*;

verus! {

// ---------------------------------------------------------------------------
// NCNames
// ---------------------------------------------------------------------------

/// Whether `c` may begin an XML NCName.
pub open spec fn is_ncname_start(c: char) -> bool {
    let v = c as u32;
    ||| c == '_'
    ||| ('a' <= c && c <= 'z')
    ||| ('A' <= c && c <= 'Z')
    ||| (0xC0 <= v && v <= 0xD6)
    ||| (0xD8 <= v && v <= 0xF6)
    ||| (0xF8 <= v && v <= 0x2FF)
    ||| (0x370 <= v && v <= 0x37D)
    ||| (0x37F <= v && v <= 0x1FFF)
    ||| (0x200C <= v && v <= 0x200D)
    ||| (0x2070 <= v && v <= 0x218F)
    ||| (0x2C00 <= v && v <= 0x2FEF)
    ||| (0x3001 <= v && v <= 0xD7FF)
    ||| (0xF900 <= v && v <= 0xFDCF)
    ||| (0xFDF0 <= v && v <= 0xFFFD)
    ||| (0x10000 <= v && v <= 0xEFFFF)
}

/// Whether `c` may continue an XML NCName.
pub open spec fn is_ncname_char(c: char) -> bool {
    let v = c as u32;
    ||| is_ncname_start(c)
    ||| ('0' <= c && c <= '9')
    ||| v == 0x2D
    ||| v == 0x2E
    ||| v == 0xB7
    ||| (0x300 <= v && v <= 0x36F)
    ||| (0x203F <= v && v <= 0x2040)
}

/// An XML NCName: a start character followed by name characters.
pub open spec fn is_ncname(s: Seq<char>) -> bool {
    &&& s.len() > 0
    &&& is_ncname_start(s[0])
    &&& forall|i: int| 1 <= i < s.len() ==> is_ncname_char(#[trigger] s[i])
}

/// An NCName holds no colon.
pub proof fn lemma_ncname_has_no_colon(s: Seq<char>)
    requires
        is_ncname(s),
    ensures
        !s.contains(':'),
{
    if s.contains(':') {
        let i = choose|i: int| 0 <= i < s.len() && s[i] == ':';
        if i > 0 {
            assert(is_ncname_char(s[i]));
        }
    }
}

/// Returns whether a character may begin an XML NCName.
pub fn ncname_start(character: char) -> (r: bool)
    ensures
        r == is_ncname_start(character),
{
    let c = character;
    let v = c as u32;
    c == '_' || ('a' <= c && c <= 'z') || ('A' <= c && c <= 'Z') || (0xC0 <= v && v <= 0xD6)
        || (0xD8 <= v && v <= 0xF6) || (0xF8 <= v && v <= 0x2FF) || (0x370 <= v && v <= 0x37D)
        || (0x37F <= v && v <= 0x1FFF) || (0x200C <= v && v <= 0x200D) || (0x2070 <= v && v
        <= 0x218F) || (0x2C00 <= v && v <= 0x2FEF) || (0x3001 <= v && v <= 0xD7FF) || (0xF900
        <= v && v <= 0xFDCF) || (0xFDF0 <= v && v <= 0xFFFD) || (0x10000 <= v && v <= 0xEFFFF)
}

/// Returns whether a character may continue an XML NCName.
pub fn ncname_char(character: char) -> (r: bool)
    ensures
        r == is_ncname_char(character),
{
    let c = character;
    let v = c as u32;
    ncname_start(c) || ('0' <= c && c <= '9') || v == 0x2D || v == 0x2E || v == 0xB7 || (0x300
        <= v && v <= 0x36F) || (0x203F <= v && v <= 0x2040)
}

/// Returns whether `name` is an XML NCName: non-empty, no colon, XML's Unicode
/// start and continuation character classes.
pub fn valid_ncname(name: &str) -> (r: bool)
    ensures
        r == is_ncname(name@),
{
    let n = name.unicode_len();
    if n == 0 {
        return false;
    }
    if !ncname_start(name.get_char(0)) {
        return false;
    }
    let mut i: usize = 1;
    while i < n
        invariant
            1 <= i <= n,
            n == name@.len(),
            forall|j: int| 1 <= j < i ==> is_ncname_char(#[trigger] name@[j]),
        decreases n - i,
    {
        if !ncname_char(name.get_char(i)) {
            return false;
        }
        i = i + 1;
    }
    true
}

// ---------------------------------------------------------------------------
// Prefixes the writer may generate or accept as a preference
// ---------------------------------------------------------------------------

pub open spec fn is_ascii_alpha(c: char) -> bool {
    ('a' <= c && c <= 'z') || ('A' <= c && c <= 'Z')
}

pub open spec fn is_ascii_alnum(c: char) -> bool {
    is_ascii_alpha(c) || ('0' <= c && c <= '9')
}

/// The first three characters are `xml` in any ASCII case.
pub open spec fn starts_with_xml_any_case(s: Seq<char>) -> bool {
    &&& s.len() >= 3
    &&& (s[0] == 'x' || s[0] == 'X')
    &&& (s[1] == 'm' || s[1] == 'M')
    &&& (s[2] == 'l' || s[2] == 'L')
}

/// A prefix in the ASCII NCName subset that does not begin with `xml` in any case.
pub open spec fn is_writable_prefix(s: Seq<char>) -> bool {
    &&& s.len() > 0
    &&& (is_ascii_alpha(s[0]) || s[0] == '_')
    &&& forall|i: int|
        1 <= i < s.len() ==> {
            let c = #[trigger] s[i];
            is_ascii_alnum(c) || c == '_' || c == '-' || c == '.'
        }
    &&& !starts_with_xml_any_case(s)
}

/// Every writable prefix is an NCName.
pub proof fn lemma_writable_prefix_is_ncname(s: Seq<char>)
    requires
        is_writable_prefix(s),
    ensures
        is_ncname(s),
{
    assert forall|i: int| 1 <= i < s.len() implies is_ncname_char(#[trigger] s[i]) by {
        let c = s[i];
        assert(is_ascii_alnum(c) || c == '_' || c == '-' || c == '.');
    }
}

/// Returns whether the first three characters of `s` spell `xml` in any ASCII case.
pub fn starts_with_xml_ignore_case(s: &str) -> (r: bool)
    ensures
        r == starts_with_xml_any_case(s@),
{
    let n = s.unicode_len();
    if n < 3 {
        return false;
    }
    let a = s.get_char(0);
    let b = s.get_char(1);
    let c = s.get_char(2);
    (a == 'x' || a == 'X') && (b == 'm' || b == 'M') && (c == 'l' || c == 'L')
}

/// Returns whether `prefix` is a writer-generated-prefix candidate.
///
/// Generated prefixes use the ASCII NCName subset and exclude case-insensitive
/// `xml*` names, which XML reserves.
pub fn valid_prefix(prefix: &str) -> (r: bool)
    ensures
        r == is_writable_prefix(prefix@),
{
    let n = prefix.unicode_len();
    if n == 0 {
        return false;
    }
    let first = prefix.get_char(0);
    if !(('a' <= first && first <= 'z') || ('A' <= first && first <= 'Z') || first == '_') {
        return false;
    }
    let mut i: usize = 1;
    while i < n
        invariant
            1 <= i <= n,
            n == prefix@.len(),
            forall|j: int|
                1 <= j < i ==> {
                    let c = #[trigger] prefix@[j];
                    is_ascii_alnum(c) || c == '_' || c == '-' || c == '.'
                },
        decreases n - i,
    {
        let c = prefix.get_char(i);
        if !(('a' <= c && c <= 'z') || ('A' <= c && c <= 'Z') || ('0' <= c && c <= '9') || c
            == '_' || c == '-' || c == '.') {
            return false;
        }
        i = i + 1;
    }
    !starts_with_xml_ignore_case(prefix)
}

// ---------------------------------------------------------------------------
// Equality and order of character sequences
// ---------------------------------------------------------------------------

/// Returns whether two strings hold the same characters.
pub fn str_eq(a: &str, b: &str) -> (r: bool)
    ensures
        r == (a@ == b@),
{
    let n = a.unicode_len();
    let m = b.unicode_len();
    if n != m {
        return false;
    }
    let mut i: usize = 0;
    while i < n
        invariant
            i <= n,
            n == a@.len(),
            m == b@.len(),
            n == m,
            forall|j: int| 0 <= j < i ==> a@[j] == b@[j],
        decreases n - i,
    {
        if a.get_char(i) != b.get_char(i) {
            return false;
        }
        i = i + 1;
    }
    assert(a@ =~= b@);
    true
}

/// Returns whether two optional strings are both absent or hold the same characters.
pub fn opt_str_eq(a: &Option<String>, b: &Option<String>) -> (r: bool)
    ensures
        r == (a.deep_view() == b.deep_view()),
{
    match (a, b) {
        (Some(x), Some(y)) => str_eq(x.as_str(), y.as_str()),
        (None, None) => true,
        _ => false,
    }
}

/// Lexicographic order of character sequences by Unicode scalar value.
///
/// This is the order of `String`'s `Ord`, since UTF-8 preserves code point order.
pub open spec fn seq_lt(a: Seq<char>, b: Seq<char>) -> bool
    decreases a.len(),
{
    if a.len() == 0 {
        b.len() > 0
    } else if b.len() == 0 {
        false
    } else if a[0] != b[0] {
        (a[0] as int) < (b[0] as int)
    } else {
        seq_lt(a.drop_first(), b.drop_first())
    }
}

pub proof fn lemma_seq_lt_irreflexive(a: Seq<char>)
    ensures
        !seq_lt(a, a),
    decreases a.len(),
{
    if a.len() > 0 {
        lemma_seq_lt_irreflexive(a.drop_first());
    }
}

pub proof fn lemma_seq_lt_transitive(a: Seq<char>, b: Seq<char>, c: Seq<char>)
    requires
        seq_lt(a, b),
        seq_lt(b, c),
    ensures
        seq_lt(a, c),
    decreases a.len(),
{
    if a.len() > 0 && b.len() > 0 && c.len() > 0 && a[0] == b[0] && b[0] == c[0] {
        lemma_seq_lt_transitive(a.drop_first(), b.drop_first(), c.drop_first());
    }
}

pub proof fn lemma_seq_lt_total(a: Seq<char>, b: Seq<char>)
    ensures
        a != b ==> seq_lt(a, b) || seq_lt(b, a),
        !(seq_lt(a, b) && seq_lt(b, a)),
    decreases a.len(),
{
    if a.len() > 0 && b.len() > 0 && a[0] == b[0] {
        lemma_seq_lt_total(a.drop_first(), b.drop_first());
        if a != b {
            assert(a.drop_first() != b.drop_first()) by {
                if a.drop_first() == b.drop_first() {
                    assert(a =~= seq![a[0]] + a.drop_first());
                    assert(b =~= seq![b[0]] + b.drop_first());
                }
            }
        }
    } else if a.len() == 0 && b.len() == 0 {
        assert(a =~= b);
    } else if a.len() > 0 && b.len() > 0 {
        assert((a[0] as int) != (b[0] as int));
    }
}

/// After a common prefix of length `i`, the order is decided by what follows.
pub proof fn lemma_seq_lt_skip(a: Seq<char>, b: Seq<char>, i: int)
    requires
        0 <= i <= a.len(),
        i <= b.len(),
        a.subrange(0, i) == b.subrange(0, i),
    ensures
        seq_lt(a, b) == seq_lt(a.skip(i), b.skip(i)),
    decreases i,
{
    if i > 0 {
        assert(a[0] == a.subrange(0, i)[0]);
        assert(b[0] == b.subrange(0, i)[0]);
        assert(a.drop_first().subrange(0, i - 1) =~= a.subrange(0, i).drop_first());
        assert(b.drop_first().subrange(0, i - 1) =~= b.subrange(0, i).drop_first());
        lemma_seq_lt_skip(a.drop_first(), b.drop_first(), i - 1);
        assert(a.drop_first().skip(i - 1) =~= a.skip(i));
        assert(b.drop_first().skip(i - 1) =~= b.skip(i));
    } else {
        assert(a.skip(0) =~= a);
        assert(b.skip(0) =~= b);
    }
}

/// Compares two strings: negative, zero or positive as `a` sorts before, equal to or after `b`.
pub fn str_order(a: &str, b: &str) -> (r: i8)
    ensures
        (r < 0) == seq_lt(a@, b@),
        (r == 0) == (a@ == b@),
        (r > 0) == seq_lt(b@, a@),
{
    let n = a.unicode_len();
    let m = b.unicode_len();
    let mut i: usize = 0;
    while i < n && i < m
        invariant
            i <= n,
            i <= m,
            n == a@.len(),
            m == b@.len(),
            a@.subrange(0, i as int) == b@.subrange(0, i as int),
        decreases n - i,
    {
        let x = a.get_char(i);
        let y = b.get_char(i);
        if x != y {
            proof {
                lemma_seq_lt_skip(a@, b@, i as int);
                lemma_seq_lt_skip(b@, a@, i as int);
                assert(a@.skip(i as int)[0] == x);
                assert(b@.skip(i as int)[0] == y);
            }
            if x < y {
                return -1;
            } else {
                return 1;
            }
        }
        assert(a@.subrange(0, i + 1) =~= a@.subrange(0, i as int).push(x));
        assert(b@.subrange(0, i + 1) =~= b@.subrange(0, i as int).push(y));
        i = i + 1;
    }
    proof {
        lemma_seq_lt_skip(a@, b@, i as int);
        lemma_seq_lt_skip(b@, a@, i as int);
        assert(a@.skip(i as int).len() == n - i);
        assert(b@.skip(i as int).len() == m - i);
    }
    if n < m {
        -1
    } else if m < n {
        1
    } else {
        assert(a@ =~= a@.subrange(0, i as int));
        assert(b@ =~= b@.subrange(0, i as int));
        0
    }
}

// ---------------------------------------------------------------------------
// Building strings
// ---------------------------------------------------------------------------

/// Copies a string.
pub fn copy_string(s: &String) -> (r: String)
    ensures
        r@ == s@,
{
    s.clone()
}

/// Copies an optional string.
pub fn copy_opt_string(s: &Option<String>) -> (r: Option<String>)
    ensures
        r.deep_view() == s.deep_view(),
{
    match s {
        Some(x) => Some(x.clone()),
        None => None,
    }
}

/// Concatenates two strings.
pub fn concat_str(a: &str, b: &str) -> (r: String)
    ensures
        r@ == a@ + b@,
{
    let mut r = String::from_str(a);
    r.append(b);
    r
}

/// The decimal spelling of `n`.
pub open spec fn decimal(n: nat) -> Seq<char>
    decreases n,
{
    if n < 10 {
        seq![digit_char(n)]
    } else {
        decimal(n / 10).push(digit_char(n % 10))
    }
}

pub open spec fn digit_char(d: nat) -> char {
    if d == 0 {
        '0'
    } else if d == 1 {
        '1'
    } else if d == 2 {
        '2'
    } else if d == 3 {
        '3'
    } else if d == 4 {
        '4'
    } else if d == 5 {
        '5'
    } else if d == 6 {
        '6'
    } else if d == 7 {
        '7'
    } else if d == 8 {
        '8'
    } else {
        '9'
    }
}

/// Different numbers have different decimal spellings.
pub proof fn lemma_decimal_injective(a: nat, b: nat)
    requires
        decimal(a) == decimal(b),
    ensures
        a == b,
    decreases a,
{
    lemma_decimal_len(a);
    lemma_decimal_len(b);
    if a >= 10 && b >= 10 {
        let da = decimal(a);
        let db = decimal(b);
        assert(da.last() == digit_char(a % 10));
        assert(db.last() == digit_char(b % 10));
        assert(decimal(a / 10) =~= da.drop_last());
        assert(decimal(b / 10) =~= db.drop_last());
        lemma_decimal_injective(a / 10, b / 10);
    } else if a < 10 && b < 10 {
        assert(decimal(a)[0] == digit_char(a));
        assert(decimal(b)[0] == digit_char(b));
    }
}

pub proof fn lemma_decimal_len(n: nat)
    ensures
        decimal(n).len() >= 1,
        n >= 10 ==> decimal(n).len() >= 2,
    decreases n,
{
    if n >= 10 {
        lemma_decimal_len(n / 10);
    }
}

fn digit_str(d: u128) -> (r: &'static str)
    requires
        d < 10,
    ensures
        r@ == seq![digit_char(d as nat)],
{
    if d == 0 {
        proof { reveal_strlit("0"); }
        "0"
    } else if d == 1 {
        proof { reveal_strlit("1"); }
        "1"
    } else if d == 2 {
        proof { reveal_strlit("2"); }
        "2"
    } else if d == 3 {
        proof { reveal_strlit("3"); }
        "3"
    } else if d == 4 {
        proof { reveal_strlit("4"); }
        "4"
    } else if d == 5 {
        proof { reveal_strlit("5"); }
        "5"
    } else if d == 6 {
        proof { reveal_strlit("6"); }
        "6"
    } else if d == 7 {
        proof { reveal_strlit("7"); }
        "7"
    } else if d == 8 {
        proof { reveal_strlit("8"); }
        "8"
    } else {
        proof { reveal_strlit("9"); }
        "9"
    }
}

/// Appends the decimal spelling of `n` to `out`.
pub fn push_decimal(out: &mut String, n: u128)
    ensures
        final(out)@ == old(out)@ + decimal(n as nat),
    decreases n,
{
    if n >= 10 {
        push_decimal(out, n / 10);
    }
    out.append(digit_str(n % 10));
    proof {
        if n >= 10 {
            assert(decimal(n as nat) == decimal((n / 10) as nat).push(digit_char((n % 10) as nat)));
        }
    }
    assert(final(out)@ =~= old(out)@ + decimal(n as nat));
}

} // verus!
