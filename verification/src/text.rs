//! Character-level helpers shared by the rest of the library, and the few
//! calls into `std` string functions and `humansize` that the logic makes.
use vstd::prelude::*;
use vstd::utf8::{decode_utf8, encode_utf8, encode_utf8_decode_utf8, is_char_boundary};

verus! {

/// `p` is a prefix of `s`.
pub open spec fn seq_starts_with(s: Seq<char>, p: Seq<char>) -> bool {
    p.len() <= s.len() && s.subrange(0, p.len() as int) == p
}

/// `p` is a suffix of `s`.
pub open spec fn seq_ends_with(s: Seq<char>, p: Seq<char>) -> bool {
    p.len() <= s.len() && s.subrange(s.len() - p.len(), s.len() as int) == p
}

/// `p` occurs in `s` as a contiguous block starting at `i`.
pub open spec fn occurs_at(s: Seq<char>, p: Seq<char>, i: int) -> bool {
    0 <= i && i + p.len() <= s.len() && s.subrange(i, i + p.len()) == p
}

/// `p` occurs somewhere in `s` as a contiguous block.
pub open spec fn seq_contains(s: Seq<char>, p: Seq<char>) -> bool {
    exists|i: int| occurs_at(s, p, i)
}

/// The name of what `str::to_lowercase` returns for a string.
pub uninterp spec fn spec_lowercase(s: Seq<char>) -> Seq<char>;

/// The characters with the Unicode White_Space property, which
/// `char::is_whitespace` tests and `str::trim` removes.
pub open spec fn is_white_space(c: char) -> bool {
    ||| ('\u{9}' <= c && c <= '\u{d}')
    ||| c == ' '
    ||| c == '\u{85}'
    ||| c == '\u{a0}'
    ||| c == '\u{1680}'
    ||| ('\u{2000}' <= c && c <= '\u{200a}')
    ||| c == '\u{2028}'
    ||| c == '\u{2029}'
    ||| c == '\u{202f}'
    ||| c == '\u{205f}'
    ||| c == '\u{3000}'
}

/// `s` without its leading white space.
pub open spec fn trim_front(s: Seq<char>) -> Seq<char>
    decreases s.len(),
{
    if s.len() > 0 && is_white_space(s[0]) {
        trim_front(s.drop_first())
    } else {
        s
    }
}

/// `s` without its trailing white space.
pub open spec fn trim_back(s: Seq<char>) -> Seq<char>
    decreases s.len(),
{
    if s.len() > 0 && is_white_space(s.last()) {
        trim_back(s.drop_last())
    } else {
        s
    }
}

/// `s` without its leading and trailing white space (`str::trim`).
pub open spec fn spec_trim(s: Seq<char>) -> Seq<char> {
    trim_back(trim_front(s))
}

/// Whether `c` has the Unicode White_Space property.
pub fn is_white_space_char(c: char) -> (r: bool)
    ensures
        r == is_white_space(c),
{
    ('\u{9}' <= c && c <= '\u{d}') || c == ' ' || c == '\u{85}' || c == '\u{a0}' || c == '\u{1680}'
        || ('\u{2000}' <= c && c <= '\u{200a}') || c == '\u{2028}' || c == '\u{2029}' || c == '\u{202f}'
        || c == '\u{205f}' || c == '\u{3000}'
}

/// The name of what `humansize::format_size(size, humansize::BINARY)` returns.
pub uninterp spec fn spec_format_size_binary(size: u64) -> Seq<char>;

/// An ASCII character in lower case ('A' to 'Z' become 'a' to 'z').
pub open spec fn ascii_lower_char(c: char) -> char {
    if 'A' <= c <= 'Z' { ((c as u32) + 32) as char } else { c }
}

/// An ASCII character in upper case ('a' to 'z' become 'A' to 'Z').
pub open spec fn ascii_upper_char(c: char) -> char {
    if 'a' <= c <= 'z' { ((c as u32) - 32) as char } else { c }
}

/// A text with its ASCII letters in lower case (`str::to_ascii_lowercase`).
pub open spec fn ascii_lower(s: Seq<char>) -> Seq<char> {
    Seq::new(s.len(), |i: int| ascii_lower_char(s[i]))
}

/// A text with its ASCII letters in upper case (`str::to_ascii_uppercase`).
pub open spec fn ascii_upper(s: Seq<char>) -> Seq<char> {
    Seq::new(s.len(), |i: int| ascii_upper_char(s[i]))
}

/// Calls `str::to_lowercase`.  The result is named; of an ASCII text the
/// contract states what std documents (`to_ascii_lowercase` maps 'A' to 'Z'
/// to 'a' to 'z', and `to_lowercase` lower-cases ASCII characters in the
/// same way in addition to the others): its ASCII lower-casing.
#[verifier::external_body]
pub(crate) fn to_lowercase(s: &str) -> (r: String)
    ensures
        r@ == spec_lowercase(s@),
        vstd::utf8::is_ascii_chars(s@) ==> r@ == ascii_lower(s@),
{
    s.to_lowercase()
}

/// `s` without its leading and trailing white space (what `str::trim` gives).
pub fn trim(s: &str) -> (r: String)
    ensures
        r@ == spec_trim(s@),
{
    let cs = chars_of(s);
    let n = cs.len();
    let mut i: usize = 0;
    assert(cs@.subrange(0, n as int) =~= s@);
    while i < n && is_white_space_char(cs[i])
        invariant
            i <= n == cs@.len(),
            cs@ == s@,
            trim_front(s@) == trim_front(cs@.subrange(i as int, n as int)),
        decreases n - i,
    {
        assert(cs@.subrange(i as int, n as int).drop_first() =~= cs@.subrange(i as int + 1, n as int));
        i = i + 1;
    }
    let mut j: usize = n;
    while j > i && is_white_space_char(cs[j - 1])
        invariant
            i <= j <= n == cs@.len(),
            trim_back(cs@.subrange(i as int, n as int)) == trim_back(cs@.subrange(i as int, j as int)),
        decreases j,
    {
        assert(cs@.subrange(i as int, j as int).drop_last() =~= cs@.subrange(i as int, j as int - 1));
        j = j - 1;
    }
    proof {
        assert(cs@.subrange(0, n as int) =~= cs@);
        assert(trim_front(cs@.subrange(i as int, n as int)) == cs@.subrange(i as int, n as int));
        assert(trim_back(cs@.subrange(i as int, j as int)) == cs@.subrange(i as int, j as int));
    }
    string_from_chars(&cs, i, j)
}

/// Calls `String::push`, which appends one character at the end.
#[verifier::external_body]
pub(crate) fn push_char(s: &mut String, c: char)
    ensures
        final(s)@ == old(s)@.push(c),
{
    s.push(c)
}

/// Calls `humansize::format_size` with the `BINARY` options; the contract
/// only names its result (a function of the size alone).
#[verifier::external_body]
pub(crate) fn format_size_binary(size: u64) -> (r: String)
    ensures
        r@ == spec_format_size_binary(size),
{
    humansize::format_size(size, humansize::BINARY)
}

/// The characters of `s`, in order.
pub fn chars_of(s: &str) -> (v: Vec<char>)
    ensures
        v@ == s@,
{
    let mut v: Vec<char> = Vec::new();
    for c in it: s.chars()
        invariant
            v@ == it.seq().take(it.index() as int),
            it.seq() == s@,
    {
        v.push(c);
    }
    v
}

/// A string holding exactly the characters of `cs[from..to]`.
pub fn string_from_chars(cs: &Vec<char>, from: usize, to: usize) -> (s: String)
    requires
        from <= to <= cs.len(),
    ensures
        s@ == cs@.subrange(from as int, to as int),
{
    let mut s = String::new();
    let mut i = from;
    while i < to
        invariant
            from <= i <= to <= cs.len(),
            s@ == cs@.subrange(from as int, i as int),
        decreases to - i,
    {
        push_char(&mut s, cs[i]);
        i = i + 1;
        assert(s@ =~= cs@.subrange(from as int, i as int));
    }
    s
}

/// Appends `t` to `s`.
pub fn append_str(s: &mut String, t: &str)
    ensures
        final(s)@ == old(s)@ + t@,
{
    let cs = chars_of(t);
    let ghost s0 = s@;
    let mut i: usize = 0;
    while i < cs.len()
        invariant
            i <= cs.len(),
            cs@ == t@,
            s@ == s0 + cs@.subrange(0, i as int),
        decreases cs.len() - i,
    {
        push_char(s, cs[i]);
        i = i + 1;
        assert(s@ =~= s0 + cs@.subrange(0, i as int));
    }
    assert(cs@.subrange(0, cs@.len() as int) =~= cs@);
}

/// The concatenation of two strings, as a new string.
pub fn concat2(a: &str, b: &str) -> (s: String)
    ensures
        s@ == a@ + b@,
{
    let mut s = String::new();
    append_str(&mut s, a);
    append_str(&mut s, b);
    assert(s@ =~= a@ + b@);
    s
}

/// Equality of the character sequences of two slices of `char`s.
pub fn chars_eq(a: &Vec<char>, b: &Vec<char>) -> (r: bool)
    ensures
        r == (a@ == b@),
{
    if a.len() != b.len() {
        return false;
    }
    let mut i: usize = 0;
    while i < a.len()
        invariant
            i <= a.len() == b.len(),
            forall|j: int| 0 <= j < i ==> a@[j] == b@[j],
        decreases a.len() - i,
    {
        if a[i] != b[i] {
            return false;
        }
        i = i + 1;
    }
    assert(a@ =~= b@);
    true
}

/// Equality of two strings.
pub fn str_eq(a: &str, b: &str) -> (r: bool)
    ensures
        r == (a@ == b@),
{
    let ca = chars_of(a);
    let cb = chars_of(b);
    chars_eq(&ca, &cb)
}

/// Whether `s` begins with `p`.
pub fn starts_with(s: &str, p: &str) -> (r: bool)
    ensures
        r == seq_starts_with(s@, p@),
{
    let cs = chars_of(s);
    let cp = chars_of(p);
    if cp.len() > cs.len() {
        return false;
    }
    let mut i: usize = 0;
    while i < cp.len()
        invariant
            i <= cp.len() <= cs.len(),
            cs@ == s@,
            cp@ == p@,
            forall|j: int| 0 <= j < i ==> cs@[j] == cp@[j],
        decreases cp.len() - i,
    {
        if cs[i] != cp[i] {
            return false;
        }
        i = i + 1;
    }
    assert(s@.subrange(0, p@.len() as int) =~= p@);
    true
}

/// Whether `s` ends with `p`.
pub fn ends_with(s: &str, p: &str) -> (r: bool)
    ensures
        r == seq_ends_with(s@, p@),
{
    let cs = chars_of(s);
    let cp = chars_of(p);
    if cp.len() > cs.len() {
        return false;
    }
    let off = cs.len() - cp.len();
    let mut i: usize = 0;
    while i < cp.len()
        invariant
            i <= cp.len() <= cs.len(),
            off == cs.len() - cp.len(),
            cs@ == s@,
            cp@ == p@,
            forall|j: int| 0 <= j < i ==> cs@[off + j] == cp@[j],
        decreases cp.len() - i,
    {
        if cs[off + i] != cp[i] {
            assert(s@.subrange(s@.len() - p@.len(), s@.len() as int)[i as int] != p@[i as int]);
            return false;
        }
        i = i + 1;
    }
    assert(s@.subrange(s@.len() - p@.len(), s@.len() as int) =~= p@);
    true
}

/// Whether `p` occurs at position `i` of `cs`.
fn chars_occur_at(cs: &Vec<char>, cp: &Vec<char>, i: usize) -> (r: bool)
    requires
        i + cp.len() <= cs.len(),
    ensures
        r == occurs_at(cs@, cp@, i as int),
{
    let mut k: usize = 0;
    while k < cp.len()
        invariant
            k <= cp.len(),
            i + cp.len() <= cs.len(),
            forall|j: int| 0 <= j < k ==> cs@[i + j] == cp@[j],
        decreases cp.len() - k,
    {
        if cs[i + k] != cp[k] {
            assert(cs@.subrange(i as int, i + cp@.len())[k as int] != cp@[k as int]);
            return false;
        }
        k = k + 1;
    }
    assert(cs@.subrange(i as int, i + cp@.len()) =~= cp@);
    true
}

/// Whether `p` occurs in `s` as a contiguous block (`str::contains` with a
/// string pattern).
pub fn contains_str(s: &str, p: &str) -> (r: bool)
    ensures
        r == seq_contains(s@, p@),
{
    let cs = chars_of(s);
    let cp = chars_of(p);
    if cp.len() > cs.len() {
        assert(!seq_contains(s@, p@));
        return false;
    }
    let last = cs.len() - cp.len();
    let mut i: usize = 0;
    while i < last
        invariant
            i <= last,
            last == cs.len() - cp.len(),
            cs@ == s@,
            cp@ == p@,
            forall|j: int| 0 <= j < i ==> !occurs_at(s@, p@, j),
        decreases last - i,
    {
        if chars_occur_at(&cs, &cp, i) {
            return true;
        }
        i = i + 1;
    }
    if chars_occur_at(&cs, &cp, last) {
        return true;
    }
    assert forall|j: int| !occurs_at(s@, p@, j) by {
        if 0 <= j <= last {
        }
    }
    false
}

/// Whether the character `c` occurs in `s`.
pub fn contains_char(s: &str, c: char) -> (r: bool)
    ensures
        r == s@.contains(c),
{
    let cs = chars_of(s);
    let mut i: usize = 0;
    while i < cs.len()
        invariant
            i <= cs.len(),
            cs@ == s@,
            forall|j: int| 0 <= j < i ==> cs@[j] != c,
        decreases cs.len() - i,
    {
        if cs[i] == c {
            return true;
        }
        i = i + 1;
    }
    false
}

/// Whether `s` equals one of the strings in `list`.
pub fn str_in_list(s: &str, list: &Vec<&str>) -> (r: bool)
    ensures
        r == exists|i: int| 0 <= i < list.len() && list@[i]@ == s@,
{
    let mut i: usize = 0;
    while i < list.len()
        invariant
            i <= list.len(),
            forall|j: int| 0 <= j < i ==> list@[j]@ != s@,
        decreases list.len() - i,
    {
        if str_eq(list[i], s) {
            return true;
        }
        i = i + 1;
    }
    false
}

/// Whether `s` is among the strings of `list`, where `list` is the exec
/// copy of the literal list `spec_list`.
pub(crate) fn str_in_literals(s: &str, list: &Vec<&str>, Ghost(spec_list): Ghost<Seq<Seq<char>>>) -> (r: bool)
    requires
        list@.len() == spec_list.len(),
        forall|i: int| 0 <= i < list@.len() ==> list@[i]@ == #[trigger] spec_list[i],
    ensures
        r == spec_list.contains(s@),
{
    let r = str_in_list(s, list);
    proof {
        if r {
            let i = choose|i: int| 0 <= i < list.len() && list@[i]@ == s@;
            assert(spec_list[i] == s@);
        }
        if spec_list.contains(s@) {
            let i = choose|i: int| 0 <= i < spec_list.len() && spec_list[i] == s@;
            assert(list@[i]@ == s@);
        }
    }
    r
}


/// The decimal digits of `n`, most significant first.
pub open spec fn decimal(n: nat) -> Seq<char>
    decreases n,
{
    if n < 10 {
        seq![(48 + n) as char]
    } else {
        decimal(n / 10).push((48 + n % 10) as char)
    }
}

/// `n` written in decimal.
pub fn decimal_string(n: usize) -> (s: String)
    ensures
        s@ == decimal(n as nat),
    decreases n,
{
    if n < 10 {
        let mut s = String::new();
        push_char(&mut s, ((48 + n) as u8) as char);
        assert(s@ =~= decimal(n as nat));
        s
    } else {
        let mut s = decimal_string(n / 10);
        push_char(&mut s, ((48 + n % 10) as u8) as char);
        assert(s@ =~= decimal(n as nat));
        s
    }
}

/// The pieces of `s` between the occurrences of `sep` (`str::split` with a
/// character pattern): joined with `sep` they give `s` back, and none holds
/// `sep`.
pub open spec fn split_pieces(s: Seq<char>, sep: char) -> Seq<Seq<char>>
    decreases s.len(),
{
    if s.len() == 0 {
        seq![Seq::empty()]
    } else {
        let prev = split_pieces(s.drop_last(), sep);
        if s.last() == sep {
            prev.push(Seq::empty())
        } else {
            prev.update(prev.len() - 1, prev.last().push(s.last()))
        }
    }
}

pub proof fn lemma_split_pieces_nonempty(s: Seq<char>, sep: char)
    ensures
        split_pieces(s, sep).len() >= 1,
    decreases s.len(),
{
    if s.len() > 0 {
        lemma_split_pieces_nonempty(s.drop_last(), sep);
    }
}

/// Splits `s` at every `sep`.
pub fn split_char(s: &str, sep: char) -> (pieces: Vec<String>)
    ensures
        crate::tree::string_views(pieces@) == split_pieces(s@, sep),
{
    let cs = chars_of(s);
    let mut pieces: Vec<String> = Vec::new();
    let mut start: usize = 0;
    let mut i: usize = 0;
    proof {
        assert(cs@.take(0) =~= Seq::<char>::empty());
    }
    while i < cs.len()
        invariant
            start <= i <= cs@.len(),
            cs@ == s@,
            forall|j: int| start <= j < i ==> cs@[j] != sep,
            start > 0 ==> cs@[start - 1] == sep,
            crate::tree::string_views(pieces@).push(cs@.subrange(start as int, i as int))
                == split_pieces(cs@.take(i as int), sep),
        decreases cs@.len() - i,
    {
        let ghost before = crate::tree::string_views(pieces@);
        proof {
            assert(cs@.take(i as int + 1).drop_last() =~= cs@.take(i as int));
            lemma_split_pieces_nonempty(cs@.take(i as int), sep);
        }
        if cs[i] == sep {
            let piece = string_from_chars(&cs, start, i);
            pieces.push(piece);
            proof {
                assert(crate::tree::string_views(pieces@) =~= before.push(cs@.subrange(start as int, i as int)));
                assert(cs@.subrange(i as int + 1, i as int + 1) =~= Seq::<char>::empty());
            }
            start = i + 1;
        } else {
            proof {
                assert(cs@.subrange(start as int, i as int + 1) =~= cs@.subrange(start as int, i as int).push(cs@[i as int]));
                let prev = split_pieces(cs@.take(i as int), sep);
                assert(before.push(cs@.subrange(start as int, i as int + 1)) =~= prev.update(prev.len() - 1, prev.last().push(cs@[i as int])));
            }
        }
        i = i + 1;
    }
    let last = string_from_chars(&cs, start, cs.len());
    let ghost before = crate::tree::string_views(pieces@);
    pieces.push(last);
    proof {
        assert(crate::tree::string_views(pieces@) =~= before.push(cs@.subrange(start as int, i as int)));
        assert(cs@.take(i as int) =~= cs@);
    }
    pieces
}


/// `a` and `b` agree before position `k`, and at `k` either `a` has ended
/// while `b` goes on, or both go on and `a` holds the smaller character.
pub open spec fn chars_lt_at(a: Seq<char>, b: Seq<char>, k: int) -> bool {
    &&& 0 <= k <= a.len()
    &&& k <= b.len()
    &&& forall|i: int| 0 <= i < k ==> a[i] == b[i]
    &&& ((k == a.len() && k < b.len()) || (k < a.len() && k < b.len() && a[k] < b[k]))
}

/// `a` comes strictly before `b` in the lexicographic order of characters
/// (which is also the order of their UTF-8 bytes, the order of `str`).
pub open spec fn chars_lt(a: Seq<char>, b: Seq<char>) -> bool {
    exists|k: int| chars_lt_at(a, b, k)
}

pub proof fn lemma_chars_lt_irreflexive(a: Seq<char>)
    ensures
        !chars_lt(a, a),
{
}

pub proof fn lemma_chars_lt_transitive(a: Seq<char>, b: Seq<char>, c: Seq<char>)
    requires
        chars_lt(a, b),
        chars_lt(b, c),
    ensures
        chars_lt(a, c),
{
    let k1 = choose|k: int| chars_lt_at(a, b, k);
    let k2 = choose|k: int| chars_lt_at(b, c, k);
    if k1 < k2 {
        assert(b[k1] == c[k1]);
        assert(chars_lt_at(a, c, k1));
    } else if k2 < k1 {
        assert(a[k2] == b[k2]);
        assert(chars_lt_at(a, c, k2));
    } else {
        assert(chars_lt_at(a, c, k1));
    }
}

pub proof fn lemma_chars_lt_asymmetric(a: Seq<char>, b: Seq<char>)
    requires
        chars_lt(a, b),
    ensures
        !chars_lt(b, a),
        a != b,
{
    if chars_lt(b, a) {
        lemma_chars_lt_transitive(a, b, a);
    }
}

proof fn lemma_chars_lt_total_from(a: Seq<char>, b: Seq<char>, k: int)
    requires
        0 <= k <= a.len(),
        k <= b.len(),
        forall|i: int| 0 <= i < k ==> a[i] == b[i],
    ensures
        a == b || chars_lt(a, b) || chars_lt(b, a),
    decreases a.len() - k,
{
    if k == a.len() || k == b.len() {
        if a.len() == b.len() {
            assert(a =~= b);
        } else if k == a.len() {
            assert(chars_lt_at(a, b, k));
        } else {
            assert(chars_lt_at(b, a, k));
        }
    } else if a[k] != b[k] {
        if a[k] < b[k] {
            assert(chars_lt_at(a, b, k));
        } else {
            assert(chars_lt_at(b, a, k));
        }
    } else {
        lemma_chars_lt_total_from(a, b, k + 1);
    }
}

pub proof fn lemma_chars_lt_total(a: Seq<char>, b: Seq<char>)
    ensures
        a == b || chars_lt(a, b) || chars_lt(b, a),
{
    lemma_chars_lt_total_from(a, b, 0);
}

/// Three-way comparison in the lexicographic order of characters: negative,
/// zero or positive as `a` comes before, equals or comes after `b`.
pub fn compare_chars(a: &Vec<char>, b: &Vec<char>) -> (r: i8)
    ensures
        (r < 0) == chars_lt(a@, b@),
        (r == 0) == (a@ == b@),
        (r > 0) == chars_lt(b@, a@),
{
    let mut i: usize = 0;
    while i < a.len() && i < b.len()
        invariant
            i <= a.len(),
            i <= b.len(),
            forall|j: int| 0 <= j < i ==> a@[j] == b@[j],
        decreases a.len() - i,
    {
        if a[i] != b[i] {
            if a[i] < b[i] {
                proof {
                    assert(chars_lt_at(a@, b@, i as int));
                    lemma_chars_lt_asymmetric(a@, b@);
                }
                return -1;
            } else {
                proof {
                    assert(chars_lt_at(b@, a@, i as int));
                    lemma_chars_lt_asymmetric(b@, a@);
                }
                return 1;
            }
        }
        i = i + 1;
    }
    if a.len() < b.len() {
        proof {
            assert(chars_lt_at(a@, b@, i as int));
            lemma_chars_lt_asymmetric(a@, b@);
        }
        -1
    } else if b.len() < a.len() {
        proof {
            assert(chars_lt_at(b@, a@, i as int));
            lemma_chars_lt_asymmetric(b@, a@);
        }
        1
    } else {
        assert(a@ =~= b@);
        0
    }
}

/// `s` without the prefix `p`, or `None` where `s` does not begin with `p`
/// (`str::strip_prefix` with a string pattern).
pub fn strip_prefix(s: &str, p: &str) -> (r: Option<String>)
    ensures
        r is Some <==> seq_starts_with(s@, p@),
        r is Some ==> r->0@ == s@.subrange(p@.len() as int, s@.len() as int),
{
    if starts_with(s, p) {
        let cs = chars_of(s);
        let cp = chars_of(p);
        Some(string_from_chars(&cs, cp.len(), cs.len()))
    } else {
        None
    }
}

// ------------------------------------------------------------------
// Bytes of UTF-8 text
// ------------------------------------------------------------------

/// The text of the bytes `from..to` of the UTF-8 encoding of `s`.
pub open spec fn byte_range_text(s: Seq<char>, from: int, to: int) -> Seq<char> {
    decode_utf8(encode_utf8(s).subrange(from, to))
}

/// Byte offset `i` of `s` falls between two characters.
pub open spec fn at_char_boundary(s: Seq<char>, i: int) -> bool {
    is_char_boundary(encode_utf8(s), i)
}

/// The number of bytes of `s` in UTF-8 (what `str::len` returns).
pub open spec fn byte_len(s: Seq<char>) -> int {
    encode_utf8(s).len() as int
}

/// The bytes between two char boundaries of `s` are valid UTF-8, and the
/// second boundary is one of the bytes that follow the first.
pub proof fn lemma_range_valid(s: Seq<char>, from: int, to: int)
    requires
        0 <= from <= to <= byte_len(s),
        at_char_boundary(s, from),
        at_char_boundary(s, to),
    ensures
        is_char_boundary(encode_utf8(s).subrange(from, byte_len(s)), to - from),
        vstd::utf8::valid_utf8(encode_utf8(s).subrange(from, to)),
        encode_utf8(byte_range_text(s, from, to)) == encode_utf8(s).subrange(from, to),
{
    let bytes = encode_utf8(s);
    let rest = bytes.subrange(from, bytes.len() as int);
    vstd::utf8::encode_utf8_valid_utf8(s);
    vstd::utf8::valid_utf8_split(bytes, from);
    if to < bytes.len() {
        assert(rest[to - from] == bytes[to]);
        vstd::utf8::is_char_boundary_iff_not_is_continuation_byte(bytes, to);
        vstd::utf8::is_char_boundary_iff_not_is_continuation_byte(rest, to - from);
    } else {
        vstd::utf8::is_char_boundary_start_end_of_seq(rest);
    }
    vstd::utf8::valid_utf8_split(rest, to - from);
    assert(rest.subrange(0, to - from) =~= bytes.subrange(from, to));
    vstd::utf8::decode_utf8_encode_utf8(bytes.subrange(from, to));
}

/// The text of a `str` between two character boundaries, by bytes.
pub fn byte_range(s: &str, from: usize, to: usize) -> (r: &str)
    requires
        from <= to <= byte_len(s@),
        at_char_boundary(s@, from as int),
        at_char_boundary(s@, to as int),
    ensures
        r@ == byte_range_text(s@, from as int, to as int),
{
    let ghost bytes = encode_utf8(s@);
    proof {
        lemma_range_valid(s@, from as int, to as int);
    }
    let (_, rest) = s.split_at(from);
    assert(encode_utf8(rest@) =~= bytes.subrange(from as int, bytes.len() as int));
    let (mid, _) = rest.split_at(to - from);
    assert(encode_utf8(mid@) =~= bytes.subrange(from as int, to as int));
    proof {
        encode_utf8_decode_utf8(mid@);
    }
    mid
}

/// The encoding of two texts one after the other is their encodings one
/// after the other.
pub proof fn lemma_encode_concat(a: Seq<char>, b: Seq<char>)
    ensures
        encode_utf8(a + b) == encode_utf8(a) + encode_utf8(b),
    decreases a.len(),
{
    if a.len() == 0 {
        assert(a + b =~= b);
        assert(encode_utf8(a) + encode_utf8(b) =~= encode_utf8(b));
    } else {
        assert((a + b).drop_first() =~= a.drop_first() + b);
        assert((a + b)[0] == a[0]);
        lemma_encode_concat(a.drop_first(), b);
        let e0 = vstd::utf8::encode_scalar(a[0] as u32);
        assert(encode_utf8(a + b) =~= e0 + (encode_utf8(a.drop_first()) + encode_utf8(b)));
        assert(encode_utf8(a) =~= e0 + encode_utf8(a.drop_first()));
    }
}

} // verus!
