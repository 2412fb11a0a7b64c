//! Character and string helpers shared by the taggers, each specified over
//! `Seq<char>`.

use vstd::prelude::*;

verus! {

/// The characters of `s`, in order.
pub fn chars_of(s: &str) -> (v: Vec<char>)
    ensures
        v@ == s@,
{
    broadcast use vstd::string::group_string_axioms;
    let mut v: Vec<char> = Vec::new();
    for c in it: s.chars()
        invariant
            v@ == it.seq().take(it.index() as int),
            it.seq() == s@,
    {
        v.push(c);
    }
    assert(v@ == s@);
    v
}


/// `String::push` of std appends one character; vstd gives it no specification.
/// The contract claims only that the character is appended at the end.
pub assume_specification[ String::push ](s: &mut String, ch: char)
    ensures
        final(s)@ == old(s)@.push(ch),
;

/// A `String` holding exactly the characters of `v`.
pub fn string_of(v: &Vec<char>) -> (s: String)
    ensures
        s@ == v@,
{
    let mut s = String::new();
    for i in 0..v.len()
        invariant
            s@ == v@.take(i as int),
    {
        s.push(v[i]);
        assert(v@.take(i + 1) == v@.take(i as int).push(v@[i as int]));
    }
    assert(v@.take(v@.len() as int) == v@);
    s
}

/// `a` and `b` hold the same characters.
pub fn str_eq(a: &str, b: &str) -> (r: bool)
    ensures
        r == (a@ == b@),
{
    let x = a.to_owned();
    let y = b.to_owned();
    x == y
}

/// `a` and `b` hold the same characters.
pub fn chars_eq(a: &Vec<char>, b: &Vec<char>) -> (r: bool)
    ensures
        r == (a@ == b@),
{
    if a.len() != b.len() {
        return false;
    }
    for i in 0..a.len()
        invariant
            a@.len() == b@.len(),
            forall|j: int| 0 <= j < i ==> a@[j] == b@[j],
    {
        if a[i] != b[i] {
            return false;
        }
    }
    assert(a@ =~= b@);
    true
}

// ---------------------------------------------------------------------------
// Unicode facts taken from std
// ---------------------------------------------------------------------------

/// The full Unicode lowercase mapping of a text, as `str::to_lowercase` computes it.
pub uninterp spec fn lowercase(s: Seq<char>) -> Seq<char>;

/// Calls `str::to_lowercase`. Its result is taken to depend on the text alone;
/// beyond that, the contract claims only that ASCII text is lowercased letter by letter.
#[verifier::external_body]
pub(crate) fn to_lowercase(s: &str) -> (r: String)
    ensures
        r@ == lowercase(s@),
        all_ascii(s@) ==> r@ == ascii_lower_seq(s@),
{
    s.to_lowercase()
}

/// What `str::to_lowercase` gives for `s`: for ASCII text, each capital
/// letter lowercased.
pub open spec fn lower_text(s: Seq<char>) -> Seq<char> {
    if all_ascii(s) {
        ascii_lower_seq(s)
    } else {
        lowercase(s)
    }
}

/// The characters that `char::to_uppercase` yields for `c`.
pub uninterp spec fn uppercase_char(c: char) -> Seq<char>;

/// Calls `char::to_uppercase` and collects what it yields. The contract claims
/// that the result depends on `c` alone, that an ASCII lowercase letter maps
/// to its capital and that any other ASCII character, having no uppercase
/// mapping, maps to itself.
#[verifier::external_body]
pub(crate) fn to_uppercase_char(c: char) -> (r: Vec<char>)
    ensures
        r@ == uppercase_char(c),
        'a' <= c <= 'z' ==> r@ == seq![((c as u32) - 32) as char],
        (c as u32) < 128 && !('a' <= c <= 'z') ==> r@ == seq![c],
{
    c.to_uppercase().collect()
}

/// Whether `char::is_alphanumeric` holds of `c`.
pub uninterp spec fn alphanumeric(c: char) -> bool;

/// Calls `char::is_alphanumeric`. Beyond naming the result, the contract claims
/// what its documentation gives for ASCII: exactly letters and digits qualify.
#[verifier::external_body]
pub(crate) fn is_alphanumeric(c: char) -> (b: bool)
    ensures
        b == alphanumeric(c),
        (c as u32) < 128 ==> (b <==> (is_ascii_letter(c) || is_ascii_digit(c))),
{
    c.is_alphanumeric()
}

/// Whether `char::is_alphabetic` holds of `c`.
pub uninterp spec fn alphabetic(c: char) -> bool;

/// Calls `char::is_alphabetic`. Beyond naming the result, the contract claims
/// what its documentation gives for ASCII: exactly the letters qualify.
#[verifier::external_body]
pub(crate) fn is_alphabetic(c: char) -> (b: bool)
    ensures
        b == alphabetic(c),
        (c as u32) < 128 ==> (b <==> is_ascii_letter(c)),
{
    c.is_alphabetic()
}

// ---------------------------------------------------------------------------
// ASCII classes
// ---------------------------------------------------------------------------

pub open spec fn is_ascii_letter(c: char) -> bool {
    ('a' <= c <= 'z') || ('A' <= c <= 'Z')
}

pub open spec fn is_ascii_digit(c: char) -> bool {
    '0' <= c <= '9'
}

pub open spec fn all_ascii(s: Seq<char>) -> bool {
    forall|i: int| 0 <= i < s.len() ==> (s[i] as u32) < 128
}

/// A part of an ASCII text is ASCII.
pub proof fn lemma_ascii_subrange(s: Seq<char>, a: int, b: int)
    requires
        all_ascii(s),
        0 <= a <= b <= s.len(),
    ensures
        all_ascii(s.subrange(a, b)),
{
    assert forall|i: int| 0 <= i < b - a implies (#[trigger] s.subrange(a, b)[i] as u32) < 128 by {
        assert(s.subrange(a, b)[i] == s[a + i]);
    }
}

/// Lowercasing an ASCII text twice is lowercasing it once.
pub proof fn lemma_ascii_lower_twice(s: Seq<char>)
    ensures
        ascii_lower_seq(ascii_lower_seq(s)) == ascii_lower_seq(s),
        all_ascii(s) ==> all_ascii(ascii_lower_seq(s)),
{
    assert(ascii_lower_seq(ascii_lower_seq(s)) =~= ascii_lower_seq(s));
}

/// Trimming and stripping an ASCII text leave it ASCII.
pub proof fn lemma_ascii_trimmed(s: Seq<char>, pat: Seq<char>, c: char)
    requires
        all_ascii(s),
    ensures
        all_ascii(trim_start(s)),
        all_ascii(trim_end(s)),
        all_ascii(strip_leading(s, pat)),
        all_ascii(strip_trailing(s, c)),
    decreases s.len(),
{
    if s.len() > 0 {
        lemma_ascii_subrange(s, 1, s.len() as int);
        lemma_ascii_subrange(s, 0, s.len() - 1);
        assert(s.drop_first() == s.subrange(1, s.len() as int));
        assert(s.drop_last() == s.subrange(0, s.len() - 1));
        lemma_ascii_trimmed(s.drop_first(), pat, c);
        lemma_ascii_trimmed(s.drop_last(), pat, c);
        if pat.len() > 0 && starts_with(s, pat) {
            lemma_ascii_subrange(s, pat.len() as int, s.len() as int);
            lemma_ascii_trimmed(s.subrange(pat.len() as int, s.len() as int), pat, c);
        }
    }
}

/// ASCII uppercase letters map to lowercase; every other character is kept.
pub open spec fn ascii_lower(c: char) -> char {
    if 'A' <= c <= 'Z' {
        ((c as u32) + 32) as char
    } else {
        c
    }
}

pub open spec fn ascii_lower_seq(s: Seq<char>) -> Seq<char> {
    s.map_values(|c: char| ascii_lower(c))
}

pub fn to_ascii_lower(c: char) -> (r: char)
    ensures
        r == ascii_lower(c),
{
    if 'A' <= c && c <= 'Z' {
        ((c as u8) + 32) as char
    } else {
        c
    }
}

/// `a` and `b` are equal once ASCII letters are folded to lowercase
/// (`str::eq_ignore_ascii_case`).
pub open spec fn eq_ignore_ascii_case(a: Seq<char>, b: Seq<char>) -> bool {
    ascii_lower_seq(a) == ascii_lower_seq(b)
}

pub fn chars_eq_ignore_ascii_case(a: &Vec<char>, b: &Vec<char>) -> (r: bool)
    ensures
        r == eq_ignore_ascii_case(a@, b@),
{
    if a.len() != b.len() {
        assert(ascii_lower_seq(a@).len() != ascii_lower_seq(b@).len());
        return false;
    }
    for i in 0..a.len()
        invariant
            a@.len() == b@.len(),
            forall|j: int| 0 <= j < i ==> ascii_lower(a@[j]) == ascii_lower(b@[j]),
    {
        if to_ascii_lower(a[i]) != to_ascii_lower(b[i]) {
            assert(ascii_lower_seq(a@)[i as int] != ascii_lower_seq(b@)[i as int]);
            return false;
        }
    }
    assert(ascii_lower_seq(a@) =~= ascii_lower_seq(b@));
    true
}

// ---------------------------------------------------------------------------
// Whitespace (`char::is_whitespace`: the Unicode White_Space property)
// ---------------------------------------------------------------------------

pub open spec fn is_white_space(c: char) -> bool {
    let u = c as u32;
    ||| 0x09 <= u <= 0x0D
    ||| u == 0x20
    ||| u == 0x85
    ||| u == 0xA0
    ||| u == 0x1680
    ||| 0x2000 <= u <= 0x200A
    ||| u == 0x2028
    ||| u == 0x2029
    ||| u == 0x202F
    ||| u == 0x205F
    ||| u == 0x3000
}

pub fn is_whitespace(c: char) -> (b: bool)
    ensures
        b == is_white_space(c),
{
    let u = c as u32;
    (0x09 <= u && u <= 0x0D) || u == 0x20 || u == 0x85 || u == 0xA0 || u == 0x1680 || (0x2000
        <= u && u <= 0x200A) || u == 0x2028 || u == 0x2029 || u == 0x202F || u == 0x205F || u
        == 0x3000
}

/// `s` without its leading whitespace.
pub open spec fn trim_start(s: Seq<char>) -> Seq<char>
    decreases s.len(),
{
    if s.len() > 0 && is_white_space(s[0]) {
        trim_start(s.drop_first())
    } else {
        s
    }
}

/// `s` without its trailing whitespace.
pub open spec fn trim_end(s: Seq<char>) -> Seq<char>
    decreases s.len(),
{
    if s.len() > 0 && is_white_space(s.last()) {
        trim_end(s.drop_last())
    } else {
        s
    }
}

/// `str::trim`: `s` without leading and trailing whitespace.
pub open spec fn trim(s: Seq<char>) -> Seq<char> {
    trim_end(trim_start(s))
}

proof fn lemma_trim_start_from(s: Seq<char>, i: int)
    requires
        0 <= i <= s.len(),
        forall|j: int| 0 <= j < i ==> is_white_space(s[j]),
    ensures
        trim_start(s) == trim_start(s.subrange(i, s.len() as int)),
    decreases i,
{
    if i > 0 {
        assert(is_white_space(s[0]));
        let t = s.drop_first();
        assert forall|j: int| 0 <= j < i - 1 implies is_white_space(t[j]) by {
            assert(t[j] == s[j + 1]);
        }
        lemma_trim_start_from(t, i - 1);
        assert(t.subrange(i - 1, t.len() as int) =~= s.subrange(i, s.len() as int));
    } else {
        assert(s.subrange(0, s.len() as int) =~= s);
    }
}

proof fn lemma_trim_end_to(s: Seq<char>, k: int)
    requires
        0 <= k <= s.len(),
        forall|j: int| k <= j < s.len() ==> is_white_space(s[j]),
    ensures
        trim_end(s) == trim_end(s.subrange(0, k)),
    decreases s.len() - k,
{
    if k < s.len() {
        assert(is_white_space(s.last()));
        let t = s.drop_last();
        lemma_trim_end_to(t, k);
        assert(t.subrange(0, k) =~= s.subrange(0, k));
    } else {
        assert(s.subrange(0, k) =~= s);
    }
}

/// `str::trim` on a character vector.
pub fn trim_chars(s: &Vec<char>) -> (r: Vec<char>)
    ensures
        r@ == trim(s@),
{
    let n = s.len();
    let mut lo: usize = 0;
    while lo < n && is_whitespace(s[lo])
        invariant
            lo <= n == s@.len(),
            forall|j: int| 0 <= j < lo ==> is_white_space(s@[j]),
        decreases n - lo,
    {
        lo = lo + 1;
    }
    proof {
        lemma_trim_start_from(s@, lo as int);
    }
    let ghost mid = s@.subrange(lo as int, n as int);
    assert(trim_start(mid) == mid);
    let mut hi: usize = n;
    while hi > lo && is_whitespace(s[hi - 1])
        invariant
            lo <= hi <= n == s@.len(),
            forall|j: int| hi <= j < n ==> is_white_space(s@[j]),
        decreases hi,
    {
        hi = hi - 1;
    }
    proof {
        let m = mid;
        assert forall|j: int| (hi - lo) <= j < m.len() implies is_white_space(m[j]) by {
            assert(m[j] == s@[j + lo]);
        }
        lemma_trim_end_to(m, (hi - lo) as int);
        assert(m.subrange(0, (hi - lo) as int) =~= s@.subrange(lo as int, hi as int));
    }
    let mut r: Vec<char> = Vec::new();
    for i in lo..hi
        invariant
            lo <= hi <= n == s@.len(),
            r@ == s@.subrange(lo as int, i as int),
    {
        r.push(s[i]);
        assert(s@.subrange(lo as int, i + 1) == s@.subrange(lo as int, i as int).push(s@[i as int]));
    }
    proof {
        let t = s@.subrange(lo as int, hi as int);
        if t.len() > 0 {
            assert(!is_white_space(t.last()));
        }
        assert(trim_end(t) == t);
    }
    r
}


// ---------------------------------------------------------------------------
// Substrings
// ---------------------------------------------------------------------------

/// `n` occurs in `h` at position `i`.
pub open spec fn matches_at(h: Seq<char>, n: Seq<char>, i: int) -> bool {
    0 <= i && i + n.len() <= h.len() && h.subrange(i, i + n.len()) == n
}

/// `str::contains`.
pub open spec fn contains(h: Seq<char>, n: Seq<char>) -> bool {
    exists|i: int| matches_at(h, n, i)
}

/// `str::starts_with`.
pub open spec fn starts_with(h: Seq<char>, n: Seq<char>) -> bool {
    matches_at(h, n, 0)
}

/// The first position at or after `i` where `n` occurs in `h`, or -1.
pub open spec fn find_from(h: Seq<char>, n: Seq<char>, i: int) -> int
    decreases h.len() + 1 - i,
{
    if i < 0 || i + n.len() > h.len() {
        -1
    } else if matches_at(h, n, i) {
        i
    } else {
        find_from(h, n, i + 1)
    }
}

/// `str::find` counted in characters: the first position of `n` in `h`, or -1.
pub open spec fn find(h: Seq<char>, n: Seq<char>) -> int {
    find_from(h, n, 0)
}

/// The last position at or before `i` where `n` occurs in `h`, or -1.
pub open spec fn rfind_to(h: Seq<char>, n: Seq<char>, i: int) -> int
    decreases i + 1,
{
    if i < 0 {
        -1
    } else if matches_at(h, n, i) {
        i
    } else {
        rfind_to(h, n, i - 1)
    }
}

/// `str::rfind` counted in characters: the last position of `n` in `h`, or -1.
pub open spec fn rfind(h: Seq<char>, n: Seq<char>) -> int {
    rfind_to(h, n, h.len() - n.len())
}

pub proof fn lemma_find_from(h: Seq<char>, n: Seq<char>, i: int)
    requires
        0 <= i,
    ensures
        find_from(h, n, i) == -1 ==> forall|j: int| i <= j ==> !matches_at(h, n, j),
        find_from(h, n, i) != -1 ==> {
            &&& i <= find_from(h, n, i)
            &&& matches_at(h, n, find_from(h, n, i))
            &&& forall|j: int| i <= j < find_from(h, n, i) ==> !matches_at(h, n, j)
        },
    decreases h.len() + 1 - i,
{
    if i + n.len() > h.len() {
    } else if matches_at(h, n, i) {
    } else {
        lemma_find_from(h, n, i + 1);
    }
}

pub proof fn lemma_rfind_to(h: Seq<char>, n: Seq<char>, i: int)
    requires
        i + n.len() <= h.len(),
    ensures
        rfind_to(h, n, i) == -1 ==> forall|j: int| j <= i ==> !matches_at(h, n, j),
        rfind_to(h, n, i) != -1 ==> {
            &&& 0 <= rfind_to(h, n, i) <= i
            &&& matches_at(h, n, rfind_to(h, n, i))
            &&& forall|j: int| rfind_to(h, n, i) < j <= i ==> !matches_at(h, n, j)
        },
    decreases i + 1,
{
    if i < 0 {
    } else if matches_at(h, n, i) {
    } else {
        lemma_rfind_to(h, n, i - 1);
    }
}

pub proof fn lemma_find_contains(h: Seq<char>, n: Seq<char>)
    ensures
        contains(h, n) <==> find(h, n) != -1,
        find(h, n) != -1 ==> matches_at(h, n, find(h, n)),
{
    lemma_find_from(h, n, 0);
    if contains(h, n) {
        let j = choose|j: int| matches_at(h, n, j);
        assert(0 <= j);
    }
}

/// `n` occurs in `h` at position `i`.
pub fn match_at(h: &Vec<char>, n: &Vec<char>, i: usize) -> (b: bool)
    ensures
        b == matches_at(h@, n@, i as int),
{
    if i > h.len() || n.len() > h.len() - i {
        return false;
    }
    for k in 0..n.len()
        invariant
            i + n@.len() <= h@.len(),
            forall|j: int| 0 <= j < k ==> h@[i + j] == n@[j],
    {
        assert(h@.len() == h.len());
        assert(i + k < h@.len());
        if h[i + k] != n[k] {
            assert(h@.subrange(i as int, i + n@.len())[k as int] != n@[k as int]);
            return false;
        }
    }
    assert(h@.subrange(i as int, i + n@.len()) =~= n@);
    true
}

/// `str::find` counted in characters.
pub fn find_chars(h: &Vec<char>, n: &Vec<char>) -> (r: Option<usize>)
    ensures
        r matches Some(i) ==> i as int == find(h@, n@),
        r is None ==> find(h@, n@) == -1,
{
    if n.len() > h.len() {
        return None;
    }
    let last = h.len() - n.len();
    let mut i: usize = 0;
    loop
        invariant
            last + n@.len() == h@.len(),
            i <= last,
            find_from(h@, n@, 0) == find_from(h@, n@, i as int),
        decreases last - i,
    {
        if match_at(h, n, i) {
            return Some(i);
        }
        if i == last {
            assert(find_from(h@, n@, i + 1) == -1);
            return None;
        }
        i = i + 1;
    }
}

/// `str::rfind` counted in characters.
pub fn rfind_chars(h: &Vec<char>, n: &Vec<char>) -> (r: Option<usize>)
    ensures
        r matches Some(i) ==> i as int == rfind(h@, n@),
        r is None ==> rfind(h@, n@) == -1,
{
    if n.len() > h.len() {
        return None;
    }
    let mut i: usize = h.len() - n.len();
    loop
        invariant
            i + n@.len() <= h@.len(),
            rfind(h@, n@) == rfind_to(h@, n@, i as int),
        decreases i,
    {
        if match_at(h, n, i) {
            return Some(i);
        }
        if i == 0 {
            assert(rfind_to(h@, n@, -1) == -1);
            return None;
        }
        i = i - 1;
    }
}

/// `str::contains`.
pub fn contains_chars(h: &Vec<char>, n: &Vec<char>) -> (b: bool)
    ensures
        b == contains(h@, n@),
{
    proof {
        lemma_find_contains(h@, n@);
    }
    find_chars(h, n).is_some()
}

/// `str::contains` with a literal needle.
pub fn contains_str(h: &Vec<char>, n: &str) -> (b: bool)
    ensures
        b == contains(h@, n@),
{
    let nv = chars_of(n);
    contains_chars(h, &nv)
}

/// `str::starts_with` with a literal prefix.
pub fn starts_with_str(h: &Vec<char>, n: &str) -> (b: bool)
    ensures
        b == starts_with(h@, n@),
{
    let nv = chars_of(n);
    match_at(h, &nv, 0)
}

/// The characters of `v` from `lo` to `hi`.
pub fn slice_chars(v: &Vec<char>, lo: usize, hi: usize) -> (r: Vec<char>)
    requires
        lo <= hi <= v@.len(),
    ensures
        r@ == v@.subrange(lo as int, hi as int),
{
    let mut r: Vec<char> = Vec::new();
    for i in lo..hi
        invariant
            lo <= hi <= v@.len(),
            r@ == v@.subrange(lo as int, i as int),
    {
        r.push(v[i]);
        assert(v@.subrange(lo as int, i + 1) == v@.subrange(lo as int, i as int).push(v@[i as int]));
    }
    r
}

/// `v` followed by `w`.
pub fn append_chars(v: &mut Vec<char>, w: &Vec<char>)
    ensures
        final(v)@ == old(v)@ + w@,
{
    for i in 0..w.len()
        invariant
            v@ == old(v)@ + w@.take(i as int),
    {
        v.push(w[i]);
        assert(w@.take(i + 1) == w@.take(i as int).push(w@[i as int]));
    }
    assert(w@.take(w@.len() as int) == w@);
}

/// `v` followed by the characters of `s`.
pub fn append_str(v: &mut Vec<char>, s: &str)
    ensures
        final(v)@ == old(v)@ + s@,
{
    let w = chars_of(s);
    append_chars(v, &w);
}

// ---------------------------------------------------------------------------
// Decimal and hexadecimal numbers
// ---------------------------------------------------------------------------

pub open spec fn digit_char(d: nat) -> char {
    (48 + d) as char
}

/// The decimal digits of `n`, as `Display` writes an unsigned integer.
pub open spec fn decimal(n: nat) -> Seq<char>
    decreases n,
{
    if n < 10 {
        seq![digit_char(n)]
    } else {
        decimal(n / 10).push(digit_char(n % 10))
    }
}

/// Appends the decimal digits of `n` to `v`.
pub fn push_decimal(v: &mut Vec<char>, n: u32)
    ensures
        final(v)@ == old(v)@ + decimal(n as nat),
    decreases n,
{
    if n >= 10 {
        push_decimal(v, n / 10);
    }
    let d: u8 = (n % 10) as u8;
    v.push((48u8 + d) as char);
    assert(old(v)@ + decimal(n as nat) =~= (if n >= 10 { old(v)@ + decimal((n / 10) as nat) } else { old(v)@ }).push(digit_char((n % 10) as nat)));
}

pub open spec fn hex_digit(d: nat) -> char {
    if d < 10 {
        (48 + d) as char
    } else {
        (55 + d) as char
    }
}

/// The uppercase hexadecimal digits of `n`.
pub open spec fn hex_upper(n: nat) -> Seq<char>
    decreases n,
{
    if n < 16 {
        seq![hex_digit(n)]
    } else {
        hex_upper(n / 16).push(hex_digit(n % 16))
    }
}

/// `format!("{:02X}", n)`: uppercase hexadecimal, at least two digits.
pub open spec fn hex_upper2(n: nat) -> Seq<char> {
    if n < 16 {
        seq!['0'] + hex_upper(n)
    } else {
        hex_upper(n)
    }
}

fn push_hex(v: &mut Vec<char>, n: u32)
    ensures
        final(v)@ == old(v)@ + hex_upper(n as nat),
    decreases n,
{
    if n >= 16 {
        push_hex(v, n / 16);
    }
    let d: u8 = (n % 16) as u8;
    let c = if d < 10 { (48u8 + d) as char } else { (55u8 + d) as char };
    v.push(c);
    assert(old(v)@ + hex_upper(n as nat) =~= (if n >= 16 { old(v)@ + hex_upper((n / 16) as nat) } else { old(v)@ }).push(hex_digit((n % 16) as nat)));
}

/// Appends `format!("%{:02X}", n)` to `v`.
pub fn push_percent_hex(v: &mut Vec<char>, n: u32)
    ensures
        final(v)@ == old(v)@ + seq!['%'] + hex_upper2(n as nat),
{
    v.push('%');
    if n < 16 {
        v.push('0');
    }
    push_hex(v, n);
    assert(final(v)@ =~= old(v)@ + seq!['%'] + hex_upper2(n as nat));
}

pub open spec fn digit_value(c: char) -> nat {
    ((c as u32) - 48) as nat
}

/// The number that a string of decimal digits denotes.
pub open spec fn digits_value(s: Seq<char>) -> nat
    decreases s.len(),
{
    if s.len() == 0 {
        0
    } else {
        digits_value(s.drop_last()) * 10 + digit_value(s.last())
    }
}

pub open spec fn all_digits(s: Seq<char>) -> bool {
    forall|i: int| 0 <= i < s.len() ==> is_ascii_digit(#[trigger] s[i])
}

/// `str::parse::<u32>`: an optional `+`, then one or more ASCII digits, whose
/// value must fit in a `u32`.
pub open spec fn parse_u32(s: Seq<char>) -> Option<u32> {
    let d = if s.len() > 0 && s[0] == '+' {
        s.drop_first()
    } else {
        s
    };
    if d.len() == 0 || !all_digits(d) || digits_value(d) > u32::MAX {
        None
    } else {
        Some(digits_value(d) as u32)
    }
}

proof fn lemma_digits_value_grows(s: Seq<char>, i: int)
    requires
        0 <= i <= s.len(),
        all_digits(s),
    ensures
        digits_value(s.take(i)) <= digits_value(s),
    decreases s.len() - i,
{
    if i < s.len() {
        lemma_digits_value_grows(s, i + 1);
        assert(s.take(i + 1).drop_last() =~= s.take(i));
        assert(is_ascii_digit(s[i]));
    } else {
        assert(s.take(i) =~= s);
    }
}

/// `str::parse::<u32>`.
pub fn parse_u32_chars(s: &Vec<char>) -> (r: Option<u32>)
    ensures
        r == parse_u32(s@),
{
    let start: usize = if s.len() > 0 && s[0] == '+' { 1 } else { 0 };
    let ghost d = if s@.len() > 0 && s@[0] == '+' { s@.drop_first() } else { s@ };
    assert(d =~= s@.subrange(start as int, s@.len() as int));
    if start == s.len() {
        return None;
    }
    let mut acc: u64 = 0;
    let mut i: usize = start;
    while i < s.len()
        invariant
            start <= i <= s@.len(),
            d == s@.subrange(start as int, s@.len() as int),
            d == (if s@.len() > 0 && s@[0] == '+' { s@.drop_first() } else { s@ }),
            forall|j: int| start <= j < i ==> is_ascii_digit(s@[j]),
            acc as nat == digits_value(d.take(i - start)),
            acc <= u32::MAX,
        decreases s.len() - i,
    {
        let c = s[i];
        if c < '0' || c > '9' {
            assert(d[i - start] == s@[i as int]);
            assert(!is_ascii_digit(d[i - start]));
            return None;
        }
        let dv: u64 = ((c as u32) - 48) as u64;
        assert(d.take(i + 1 - start).drop_last() =~= d.take(i - start));
        assert(d.take(i + 1 - start).last() == c);
        let next = acc * 10 + dv;
        assert(d[i - start] == s@[i as int]);
        assert(digits_value(d.take(i + 1 - start)) == next);
        if next > 0xFFFF_FFFF {
            proof {
                if all_digits(d) {
                    lemma_digits_value_grows(d, i + 1 - start);
                }
            }
            return None;
        }
        acc = next;
        i = i + 1;
    }
    assert(d.take(i - start) =~= d);
    assert(all_digits(d));
    Some(acc as u32)
}

// ---------------------------------------------------------------------------
// Words (`str::split_whitespace`)
// ---------------------------------------------------------------------------

/// Where the word that starts at `i` ends.
pub open spec fn word_end(s: Seq<char>, i: int) -> int
    decreases s.len() - i,
{
    if 0 <= i < s.len() && !is_white_space(s[i]) {
        word_end(s, i + 1)
    } else {
        i
    }
}

pub proof fn lemma_word_end(s: Seq<char>, i: int)
    requires
        0 <= i <= s.len(),
    ensures
        i <= word_end(s, i) <= s.len(),
        forall|j: int| i <= j < word_end(s, i) ==> !is_white_space(s[j]),
        word_end(s, i) < s.len() ==> is_white_space(s[word_end(s, i)]),
    decreases s.len() - i,
{
    if i < s.len() && !is_white_space(s[i]) {
        lemma_word_end(s, i + 1);
    }
}

/// The whitespace-separated words of `s` from position `i` on.
pub open spec fn words_from(s: Seq<char>, i: int) -> Seq<Seq<char>>
    decreases s.len() - i,
{
    if i < 0 || i >= s.len() {
        seq![]
    } else if is_white_space(s[i]) {
        words_from(s, i + 1)
    } else {
        let e = word_end(s, i);
        proof {
            lemma_word_end(s, i + 1);
        }
        seq![s.subrange(i, e)] + words_from(s, e)
    }
}

/// `str::split_whitespace`, collected.
pub open spec fn words(s: Seq<char>) -> Seq<Seq<char>> {
    words_from(s, 0)
}

/// Words joined by single spaces (`join(" ")`).
pub open spec fn join_space(ws: Seq<Seq<char>>) -> Seq<char>
    decreases ws.len(),
{
    if ws.len() == 0 {
        seq![]
    } else if ws.len() == 1 {
        ws[0]
    } else {
        join_space(ws.drop_last()) + seq![' '] + ws.last()
    }
}

/// The words of `s`, in order.
pub fn split_whitespace(s: &Vec<char>) -> (r: Vec<Vec<char>>)
    ensures
        r@.map_values(|w: Vec<char>| w@) == words(s@),
{
    let mut r: Vec<Vec<char>> = Vec::new();
    let mut i: usize = 0;
    while i < s.len()
        invariant
            i <= s@.len(),
            words(s@) == r@.map_values(|w: Vec<char>| w@) + words_from(s@, i as int),
        decreases s.len() - i,
    {
        if is_whitespace(s[i]) {
            i = i + 1;
        } else {
            let mut e = i;
            while e < s.len() && !is_whitespace(s[e])
                invariant
                    i <= e <= s@.len(),
                    word_end(s@, i as int) == word_end(s@, e as int),
                decreases s.len() - e,
            {
                e = e + 1;
            }
            let w = slice_chars(s, i, e);
            let ghost before = r@.map_values(|w: Vec<char>| w@);
            r.push(w);
            assert(r@.map_values(|w: Vec<char>| w@) =~= before.push(w@));
            assert(words_from(s@, i as int) == seq![s@.subrange(i as int, e as int)] + words_from(s@, e as int));
            assert(before + words_from(s@, i as int) =~= before.push(w@) + words_from(s@, e as int));
            i = e;
        }
    }
    assert(words_from(s@, i as int) =~= Seq::<Seq<char>>::empty());
    assert(r@.map_values(|w: Vec<char>| w@) + Seq::<Seq<char>>::empty() =~= r@.map_values(|w: Vec<char>| w@));
    r
}


/// The text before the first `c` (`s.split(c).next()`): all of `s` when `c` does not occur.
pub open spec fn before_first(s: Seq<char>, c: char) -> Seq<char> {
    let f = find(s, seq![c]);
    if f >= 0 {
        s.subrange(0, f)
    } else {
        s
    }
}

pub fn before_first_chars(s: &Vec<char>, c: char) -> (r: Vec<char>)
    ensures
        r@ == before_first(s@, c),
{
    let mut n: Vec<char> = Vec::new();
    n.push(c);
    assert(n@ =~= seq![c]);
    match find_chars(s, &n) {
        Some(i) => {
            proof {
                lemma_find_from(s@, n@, 0);
            }
            slice_chars(s, 0, i)
        },
        None => {
            let r = slice_chars(s, 0, s.len());
            assert(r@ =~= s@);
            r
        },
    }
}


/// The characters of an optional string.
pub open spec fn opt_chars(o: Option<String>) -> Option<Seq<char>> {
    match o {
        Some(s) => Some(s@),
        None => None,
    }
}


/// `str::parse::<u64>`: an optional `+`, then one or more ASCII digits, whose
/// value must fit in a `u64`.
pub open spec fn parse_u64(s: Seq<char>) -> Option<u64> {
    let d = if s.len() > 0 && s[0] == '+' {
        s.drop_first()
    } else {
        s
    };
    if d.len() == 0 || !all_digits(d) || digits_value(d) > u64::MAX {
        None
    } else {
        Some(digits_value(d) as u64)
    }
}

/// `str::parse::<u64>`.
pub fn parse_u64_chars(s: &Vec<char>) -> (r: Option<u64>)
    ensures
        r == parse_u64(s@),
{
    let start: usize = if s.len() > 0 && s[0] == '+' { 1 } else { 0 };
    let ghost d = if s@.len() > 0 && s@[0] == '+' { s@.drop_first() } else { s@ };
    assert(d =~= s@.subrange(start as int, s@.len() as int));
    if start == s.len() {
        return None;
    }
    let mut acc: u128 = 0;
    let mut i: usize = start;
    while i < s.len()
        invariant
            start <= i <= s@.len(),
            d == s@.subrange(start as int, s@.len() as int),
            d == (if s@.len() > 0 && s@[0] == '+' { s@.drop_first() } else { s@ }),
            forall|j: int| start <= j < i ==> is_ascii_digit(s@[j]),
            acc as nat == digits_value(d.take(i - start)),
            acc <= u64::MAX,
        decreases s.len() - i,
    {
        let c = s[i];
        if c < '0' || c > '9' {
            assert(d[i - start] == s@[i as int]);
            assert(!is_ascii_digit(d[i - start]));
            return None;
        }
        let dv: u128 = ((c as u32) - 48) as u128;
        assert(d.take(i + 1 - start).drop_last() =~= d.take(i - start));
        assert(d.take(i + 1 - start).last() == c);
        let next = acc * 10 + dv;
        assert(d[i - start] == s@[i as int]);
        assert(digits_value(d.take(i + 1 - start)) == next);
        if next > 0xFFFF_FFFF_FFFF_FFFF {
            proof {
                if all_digits(d) {
                    lemma_digits_value_grows(d, i + 1 - start);
                }
            }
            return None;
        }
        acc = next;
        i = i + 1;
    }
    assert(d.take(i - start) =~= d);
    assert(all_digits(d));
    Some(acc as u64)
}


// ---------------------------------------------------------------------------
// UTF-8 lengths
// ---------------------------------------------------------------------------

/// How many bytes UTF-8 spends on a character.
pub open spec fn utf8_width(c: char) -> int {
    let u = c as u32;
    if u < 0x80 {
        1
    } else if u < 0x800 {
        2
    } else if u < 0x10000 {
        3
    } else {
        4
    }
}

/// How many bytes UTF-8 spends on a text (`str::len`).
pub open spec fn utf8_len(s: Seq<char>) -> int
    decreases s.len(),
{
    if s.len() == 0 {
        0
    } else {
        utf8_len(s.drop_last()) + utf8_width(s.last())
    }
}

/// The number of characters of `s` that fill exactly its first `b` bytes, or
/// -1 when byte `b` falls inside a character or past the end.
pub open spec fn char_count_at(s: Seq<char>, b: int, q: int) -> int
    decreases s.len() + 1 - q,
{
    if q < 0 || q > s.len() || utf8_len(s.take(q)) > b {
        -1
    } else if utf8_len(s.take(q)) == b {
        q
    } else {
        char_count_at(s, b, q + 1)
    }
}

pub fn utf8_width_exec(c: char) -> (w: u64)
    ensures
        w as int == utf8_width(c),
{
    let u = c as u32;
    if u < 0x80 {
        1
    } else if u < 0x800 {
        2
    } else if u < 0x10000 {
        3
    } else {
        4
    }
}

/// The UTF-8 length of the first `n` characters.
pub fn utf8_len_prefix(s: &Vec<char>, n: usize) -> (r: u128)
    requires
        n <= s@.len(),
    ensures
        r as int == utf8_len(s@.take(n as int)),
{
    let mut total: u128 = 0;
    for i in 0..n
        invariant
            n <= s@.len(),
            total as int == utf8_len(s@.take(i as int)),
            total <= 4 * i,
    {
        assert(s@.take(i + 1).drop_last() =~= s@.take(i as int));
        total = total + utf8_width_exec(s[i]) as u128;
    }
    total
}

/// Where byte `b` of `s` falls between characters, counted in characters.
pub fn char_count_at_bytes(s: &Vec<char>, b: u128) -> (r: Option<usize>)
    ensures
        match r {
            Some(q) => q as int == char_count_at(s@, b as int, 0),
            None => char_count_at(s@, b as int, 0) == -1,
        },
{
    let mut total: u128 = 0;
    let mut q: usize = 0;
    loop
        invariant
            q <= s@.len(),
            total as int == utf8_len(s@.take(q as int)),
            total <= 4 * q,
            char_count_at(s@, b as int, 0) == char_count_at(s@, b as int, q as int),
        decreases s@.len() - q,
    {
        if total > b {
            return None;
        }
        if total == b {
            return Some(q);
        }
        if q == s.len() {
            assert(char_count_at(s@, b as int, q + 1) == -1);
            return None;
        }
        assert(s@.take(q + 1).drop_last() =~= s@.take(q as int));
        total = total + utf8_width_exec(s[q]) as u128;
        q = q + 1;
    }
}

/// The text before the first occurrence of `pat` (`s.split(pat).next()`).
pub open spec fn before_sub(s: Seq<char>, pat: Seq<char>) -> Seq<char> {
    let f = find(s, pat);
    if f >= 0 {
        s.take(f)
    } else {
        s
    }
}

pub fn before_sub_chars(s: &Vec<char>, pat: &str) -> (r: Vec<char>)
    ensures
        r@ == before_sub(s@, pat@),
{
    let pv = chars_of(pat);
    match find_chars(s, &pv) {
        Some(f) => {
            proof {
                lemma_find_from(s@, pv@, 0);
            }
            slice_chars(s, 0, f)
        },
        None => {
            let r = slice_chars(s, 0, s.len());
            assert(r@ =~= s@);
            r
        },
    }
}

/// `s` with every leading copy of `pat` removed (`str::trim_start_matches`).
pub open spec fn strip_leading(s: Seq<char>, pat: Seq<char>) -> Seq<char>
    decreases s.len(),
{
    if pat.len() > 0 && starts_with(s, pat) {
        strip_leading(s.subrange(pat.len() as int, s.len() as int), pat)
    } else {
        s
    }
}

/// `s` with every trailing `c` removed (`str::trim_end_matches`).
pub open spec fn strip_trailing(s: Seq<char>, c: char) -> Seq<char>
    decreases s.len(),
{
    if s.len() > 0 && s.last() == c {
        strip_trailing(s.drop_last(), c)
    } else {
        s
    }
}

pub fn strip_leading_chars(s: &Vec<char>, pat: &str) -> (r: Vec<char>)
    ensures
        r@ == strip_leading(s@, pat@),
{
    let pv = chars_of(pat);
    let mut i: usize = 0;
    if pv.len() == 0 {
        let r = slice_chars(s, 0, s.len());
        assert(r@ =~= s@);
        return r;
    }
    assert(s@.subrange(0, s@.len() as int) =~= s@);
    while pv.len() <= s.len() - i && match_at(s, &pv, i)
        invariant
            pv@ == pat@,
            pv@.len() > 0,
            i <= s@.len(),
            strip_leading(s@, pv@) == strip_leading(s@.subrange(i as int, s@.len() as int), pv@),
        decreases s@.len() - i,
    {
        let ghost t = s@.subrange(i as int, s@.len() as int);
        assert(starts_with(t, pv@)) by {
            assert(t.subrange(0, pv@.len() as int) =~= s@.subrange(i as int, i + pv@.len()));
        }
        assert(t.subrange(pv@.len() as int, t.len() as int) =~= s@.subrange(i + pv@.len(), s@.len() as int));
        i = i + pv.len();
    }
    let ghost t = s@.subrange(i as int, s@.len() as int);
    proof {
        if t.len() >= pv@.len() {
            assert(t.subrange(0, pv@.len() as int) =~= s@.subrange(i as int, i + pv@.len()));
        }
    }
    slice_chars(s, i, s.len())
}

pub fn strip_trailing_chars(s: &Vec<char>, c: char) -> (r: Vec<char>)
    ensures
        r@ == strip_trailing(s@, c),
{
    let mut hi: usize = s.len();
    assert(s@.take(hi as int) =~= s@);
    while hi > 0 && s[hi - 1] == c
        invariant
            hi <= s@.len(),
            strip_trailing(s@, c) == strip_trailing(s@.take(hi as int), c),
        decreases hi,
    {
        assert(s@.take(hi as int).drop_last() =~= s@.take(hi - 1));
        hi = hi - 1;
    }
    assert(s@.subrange(0, hi as int) =~= s@.take(hi as int));
    slice_chars(s, 0, hi)
}

} // verus!
