//! Character-level text handling for assembly source: whitespace, trimming,
//! splitting, and the byte-offset slicing that `str` indexing performs.
use vstd::prelude::*;
use vstd::slice::slice_subrange;
use vstd::slice::slice_to_vec;
use vstd::string::StrSliceExecFns;

verus! {

/// The Unicode `White_Space` property, which `char::is_whitespace` tests.
pub open spec fn is_space(c: char) -> bool {
    let u = c as u32;
    ||| u == 0x20
    ||| 0x09 <= u <= 0x0d
    ||| u == 0x85
    ||| u == 0xa0
    ||| u == 0x1680
    ||| 0x2000 <= u <= 0x200a
    ||| u == 0x2028
    ||| u == 0x2029
    ||| u == 0x202f
    ||| u == 0x205f
    ||| u == 0x3000
}

/// A set of characters that trimming and searching remove or look for.
#[derive(Clone, Copy)]
pub enum CharSet {
    /// Unicode white space.
    Space,
    /// Exactly this character.
    Just(char),
}

impl CharSet {
    pub open spec fn has(self, c: char) -> bool {
        match self {
            CharSet::Space => is_space(c),
            CharSet::Just(d) => c == d,
        }
    }

    pub fn contains(&self, c: char) -> (r: bool)
        ensures
            r == self.has(c),
    {
        match self {
            CharSet::Space => is_whitespace(c),
            CharSet::Just(d) => c == *d,
        }
    }
}

/// Whether `c` is Unicode white space.
pub fn is_whitespace(c: char) -> (r: bool)
    ensures
        r == is_space(c),
{
    let u = c as u32;
    u == 0x20 || (0x09 <= u && u <= 0x0d) || u == 0x85 || u == 0xa0 || u == 0x1680 || (0x2000
        <= u && u <= 0x200a) || u == 0x2028 || u == 0x2029 || u == 0x202f || u == 0x205f || u
        == 0x3000
}

/// `s` without its leading characters of `set`.
pub open spec fn strip_leading(s: Seq<char>, set: CharSet) -> Seq<char>
    decreases s.len(),
{
    if s.len() > 0 && set.has(s[0]) {
        strip_leading(s.drop_first(), set)
    } else {
        s
    }
}

/// `s` without its trailing characters of `set`.
pub open spec fn strip_trailing(s: Seq<char>, set: CharSet) -> Seq<char>
    decreases s.len(),
{
    if s.len() > 0 && set.has(s.last()) {
        strip_trailing(s.drop_last(), set)
    } else {
        s
    }
}

/// `s` without leading and trailing white space, as `str::trim` gives it.
pub open spec fn trimmed(s: Seq<char>) -> Seq<char> {
    strip_trailing(strip_leading(s, CharSet::Space), CharSet::Space)
}

/// Index of the first character of `s` in `set`.
pub open spec fn find_first(s: Seq<char>, set: CharSet) -> Option<int>
    decreases s.len(),
{
    if s.len() == 0 {
        None
    } else if set.has(s[0]) {
        Some(0)
    } else {
        match find_first(s.drop_first(), set) {
            Some(k) => Some(k + 1),
            None => None,
        }
    }
}

/// The two sides of the first white-space character of `s`, as
/// `str::split_once(char::is_whitespace)` gives them.
pub open spec fn split_once_space(s: Seq<char>) -> Option<(Seq<char>, Seq<char>)> {
    match find_first(s, CharSet::Space) {
        Some(k) => Some((s.take(k), s.skip(k + 1))),
        None => None,
    }
}

/// The pieces of `s` between occurrences of `sep`, as `str::split` gives them.
pub open spec fn split_on(s: Seq<char>, sep: char) -> Seq<Seq<char>>
    decreases s.len(),
{
    match find_first(s, CharSet::Just(sep)) {
        Some(k) => {
            if 0 <= k < s.len() {
                seq![s.take(k)] + split_on(s.skip(k + 1), sep)
            } else {
                seq![s]
            }
        },
        None => seq![s],
    }
}

/// `s` with every leading "0x" removed, as `str::trim_start_matches("0x")` does.
pub open spec fn strip_hex_prefixes(s: Seq<char>) -> Seq<char>
    decreases s.len(),
{
    if s.len() >= 2 && s[0] == '0' && s[1] == 'x' {
        strip_hex_prefixes(s.skip(2))
    } else {
        s
    }
}

/// Number of bytes of the UTF-8 encoding of `c`.
pub open spec fn utf8_width(c: char) -> nat {
    let u = c as u32;
    if u < 0x80 {
        1
    } else if u < 0x800 {
        2
    } else if u < 0x10000 {
        3
    } else {
        4
    }
}

/// Number of bytes of the UTF-8 encoding of `s`.
pub open spec fn byte_len(s: Seq<char>) -> nat
    decreases s.len(),
{
    if s.len() == 0 {
        0
    } else {
        byte_len(s.drop_last()) + utf8_width(s.last())
    }
}

/// The character index at which byte offset `b` of `s` falls on a character
/// boundary, if it does.
pub open spec fn char_at_byte(s: Seq<char>, b: int) -> Option<int> {
    if exists|k: int| 0 <= k <= s.len() && byte_len(s.take(k)) == b {
        Some(choose|k: int| 0 <= k <= s.len() && byte_len(s.take(k)) == b)
    } else {
        None
    }
}

/// The characters between byte offsets `a` and `b` of `s`, as `&s[a..b]` gives
/// them on a `str`; `None` where that indexing panics.
pub open spec fn byte_slice(s: Seq<char>, a: int, b: int) -> Option<Seq<char>> {
    match (char_at_byte(s, a), char_at_byte(s, b)) {
        (Some(i), Some(j)) => if a <= b {
            Some(s.subrange(i, j))
        } else {
            None
        },
        _ => None,
    }
}

pub proof fn lemma_find_first_bound(s: Seq<char>, set: CharSet)
    ensures
        find_first(s, set) matches Some(k) ==> 0 <= k < s.len() && set.has(s[k]) && forall|
            j: int,
        |
            0 <= j < k ==> !set.has(#[trigger] s[j]),
        find_first(s, set) is None ==> forall|j: int| 0 <= j < s.len() ==> !set.has(#[trigger] s[j]),
    decreases s.len(),
{
    if s.len() > 0 && !set.has(s[0]) {
        lemma_find_first_bound(s.drop_first(), set);
        assert forall|j: int| 1 <= j < s.len() implies s[j] == s.drop_first()[j - 1] by {}
    }
}

proof fn lemma_find_first_at(s: Seq<char>, set: CharSet, k: int)
    requires
        0 <= k < s.len(),
        set.has(s[k]),
        forall|j: int| 0 <= j < k ==> !set.has(#[trigger] s[j]),
    ensures
        find_first(s, set) == Some(k),
{
    lemma_find_first_bound(s, set);
    match find_first(s, set) {
        Some(m) => {
            if m < k {
                assert(!set.has(s[m]));
            } else if m > k {
                assert(!set.has(s[k]));
            }
        },
        None => {
            assert(!set.has(s[k]));
        },
    }
}

proof fn lemma_find_first_none(s: Seq<char>, set: CharSet)
    requires
        forall|j: int| 0 <= j < s.len() ==> !set.has(#[trigger] s[j]),
    ensures
        find_first(s, set) is None,
{
    lemma_find_first_bound(s, set);
}

/// Copy of `s[a..b]`.
fn copy_range(s: &[char], a: usize, b: usize) -> (r: Vec<char>)
    requires
        a <= b <= s@.len(),
    ensures
        r@ == s@.subrange(a as int, b as int),
{
    slice_to_vec(slice_subrange(s, a, b))
}

/// The characters of `s`.
pub fn chars_of(s: &str) -> (r: Vec<char>)
    ensures
        r@ == s@,
{
    let n = s.unicode_len();
    let mut r: Vec<char> = Vec::new();
    let mut i: usize = 0;
    while i < n
        invariant
            n == s@.len(),
            i <= n,
            r@ == s@.take(i as int),
        decreases n - i,
    {
        let c = s.get_char(i);
        r.push(c);
        proof {
            assert(s@.take(i as int).push(c) =~= s@.take(i + 1));
        }
        i = i + 1;
    }
    proof {
        assert(s@.take(n as int) =~= s@);
    }
    r
}

/// Whether `a` holds the characters of `lit`.
pub fn same_text(a: &[char], lit: &str) -> (r: bool)
    ensures
        r == (a@ == lit@),
{
    let n = lit.unicode_len();
    if a.len() != n {
        return false;
    }
    let mut i: usize = 0;
    while i < n
        invariant
            n == lit@.len(),
            n == a@.len(),
            i <= n,
            forall|j: int| 0 <= j < i ==> a@[j] == lit@[j],
        decreases n - i,
    {
        if a[i] != lit.get_char(i) {
            return false;
        }
        i = i + 1;
    }
    proof {
        assert(a@ =~= lit@);
    }
    true
}

/// Whether `a` and `b` hold the same characters.
pub fn text_eq(a: &[char], b: &[char]) -> (r: bool)
    ensures
        r == (a@ == b@),
{
    let n = a.len();
    if b.len() != n {
        return false;
    }
    let mut i: usize = 0;
    while i < n
        invariant
            n == a@.len(),
            n == b@.len(),
            i <= n,
            forall|j: int| 0 <= j < i ==> a@[j] == b@[j],
        decreases n - i,
    {
        if a[i] != b[i] {
            return false;
        }
        i = i + 1;
    }
    proof {
        assert(a@ =~= b@);
    }
    true
}

/// `s` without leading characters of `set`.
pub fn trim_start_matching(s: &[char], set: CharSet) -> (r: Vec<char>)
    ensures
        r@ == strip_leading(s@, set),
{
    let n = s.len();
    let mut i: usize = 0;
    proof {
        assert(s@.subrange(0, n as int) =~= s@);
    }
    while i < n && set.contains(s[i])
        invariant
            n == s@.len(),
            i <= n,
            strip_leading(s@, set) == strip_leading(s@.subrange(i as int, n as int), set),
        decreases n - i,
    {
        proof {
            assert(s@.subrange(i as int, n as int).drop_first() =~= s@.subrange(i + 1, n as int));
        }
        i = i + 1;
    }
    copy_range(s, i, n)
}

/// `s` without trailing characters of `set`.
pub fn trim_end_matching(s: &[char], set: CharSet) -> (r: Vec<char>)
    ensures
        r@ == strip_trailing(s@, set),
{
    let mut j: usize = s.len();
    proof {
        assert(s@.take(j as int) =~= s@);
    }
    while j > 0 && set.contains(s[j - 1])
        invariant
            j <= s@.len(),
            strip_trailing(s@, set) == strip_trailing(s@.take(j as int), set),
        decreases j,
    {
        proof {
            assert(s@.take(j as int).drop_last() =~= s@.take(j - 1));
        }
        j = j - 1;
    }
    copy_range(s, 0, j)
}

/// `s` without leading and trailing white space.
pub fn trim(s: &[char]) -> (r: Vec<char>)
    ensures
        r@ == trimmed(s@),
{
    let a = trim_start_matching(s, CharSet::Space);
    trim_end_matching(a.as_slice(), CharSet::Space)
}

/// Index of the first character of `s` in `set`.
pub fn position(s: &[char], set: CharSet) -> (r: Option<usize>)
    ensures
        r matches Some(k) ==> find_first(s@, set) == Some(k as int),
        r is None ==> find_first(s@, set) is None,
{
    let n = s.len();
    let mut i: usize = 0;
    while i < n
        invariant
            n == s@.len(),
            i <= n,
            forall|j: int| 0 <= j < i ==> !set.has(#[trigger] s@[j]),
        decreases n - i,
    {
        if set.contains(s[i]) {
            proof {
                lemma_find_first_at(s@, set, i as int);
            }
            return Some(i);
        }
        i = i + 1;
    }
    proof {
        lemma_find_first_none(s@, set);
    }
    None
}

/// The two sides of the first white-space character of `s`.
pub fn split_once_whitespace(s: &[char]) -> (r: Option<(Vec<char>, Vec<char>)>)
    ensures
        r matches Some((a, b)) ==> split_once_space(s@) == Some((a@, b@)),
        r is None ==> split_once_space(s@) is None,
{
    let n = s.len();
    match position(s, CharSet::Space) {
        Some(k) => {
            proof {
                lemma_find_first_bound(s@, CharSet::Space);
                assert(k < n);
            }
            let a = copy_range(s, 0, k);
            let b = copy_range(s, k + 1, n);
            proof {
                assert(a@ =~= s@.take(k as int));
                assert(b@ =~= s@.skip(k + 1));
            }
            Some((a, b))
        },
        None => None,
    }
}

proof fn lemma_split_step(s: Seq<char>, sep: char, start: int, i: int)
    requires
        0 <= start <= i < s.len(),
        s[i] == sep,
        forall|j: int| start <= j < i ==> s[j] != sep,
    ensures
        split_on(s.subrange(start, s.len() as int), sep) == seq![s.subrange(start, i)] + split_on(
            s.subrange(i + 1, s.len() as int),
            sep,
        ),
{
    let t = s.subrange(start, s.len() as int);
    assert forall|j: int| 0 <= j < i - start implies !CharSet::Just(sep).has(#[trigger] t[j]) by {
        assert(t[j] == s[start + j]);
    }
    lemma_find_first_at(t, CharSet::Just(sep), i - start);
    assert(t.take(i - start) =~= s.subrange(start, i));
    assert(t.skip(i - start + 1) =~= s.subrange(i + 1, s.len() as int));
}

proof fn lemma_split_last(s: Seq<char>, sep: char)
    requires
        forall|j: int| 0 <= j < s.len() ==> s[j] != sep,
    ensures
        split_on(s, sep) == seq![s],
{
    assert forall|j: int| 0 <= j < s.len() implies !CharSet::Just(sep).has(#[trigger] s[j]) by {}
    lemma_find_first_none(s, CharSet::Just(sep));
}

/// The texts held by a sequence of character vectors.
pub open spec fn views(v: Seq<Vec<char>>) -> Seq<Seq<char>> {
    Seq::new(v.len(), |i: int| v[i]@)
}

proof fn lemma_deep_view_push(old_v: Seq<Vec<char>>, new_v: Seq<Vec<char>>, x: Vec<char>)
    requires
        new_v == old_v.push(x),
    ensures
        views(new_v) =~= views(old_v).push(x@),
{
}

/// The pieces of `s` between occurrences of `sep`.
pub fn split_by(s: &[char], sep: char) -> (r: Vec<Vec<char>>)
    ensures
        views(r@) == split_on(s@, sep),
{
    let n = s.len();
    let mut pieces: Vec<Vec<char>> = Vec::new();
    let mut start: usize = 0;
    let mut i: usize = 0;
    proof {
        assert(s@.subrange(0, n as int) =~= s@);
        assert(views(pieces@) + split_on(s@, sep) =~= split_on(s@, sep));
    }
    while i < n
        invariant
            n == s@.len(),
            start <= i <= n,
            forall|j: int| start <= j < i ==> s@[j] != sep,
            split_on(s@, sep) == views(pieces@) + split_on(
                s@.subrange(start as int, n as int),
                sep,
            ),
        decreases n - i,
    {
        if s[i] == sep {
            proof {
                lemma_split_step(s@, sep, start as int, i as int);
            }
            let piece = copy_range(s, start, i);
            let ghost before = views(pieces@);
            let ghost old_v = pieces@;
            pieces.push(piece);
            proof {
                lemma_deep_view_push(old_v, pieces@, piece);
                assert(views(pieces@) =~= before.push(piece@));
                assert(before + (seq![piece@] + split_on(s@.subrange(i + 1, n as int), sep))
                    =~= before.push(piece@) + split_on(s@.subrange(i + 1, n as int), sep));
            }
            start = i + 1;
        }
        i = i + 1;
    }
    proof {
        let rest = s@.subrange(start as int, n as int);
        assert forall|j: int| 0 <= j < rest.len() implies rest[j] != sep by {
            assert(rest[j] == s@[start + j]);
        }
        lemma_split_last(rest, sep);
    }
    let last = copy_range(s, start, n);
    let ghost before = views(pieces@);
    let ghost old_v = pieces@;
    pieces.push(last);
    proof {
        lemma_deep_view_push(old_v, pieces@, last);
        assert(views(pieces@) =~= before + seq![last@]);
    }
    pieces
}

/// `s` with every leading "0x" removed.
pub fn trim_hex_prefixes(s: &[char]) -> (r: Vec<char>)
    ensures
        r@ == strip_hex_prefixes(s@),
{
    let n = s.len();
    let mut i: usize = 0;
    proof {
        assert(s@.subrange(0, n as int) =~= s@);
    }
    while i < n && i + 1 < n && s[i] == '0' && s[i + 1] == 'x'
        invariant
            n == s@.len(),
            i <= n,
            strip_hex_prefixes(s@) == strip_hex_prefixes(s@.subrange(i as int, n as int)),
        decreases n - i,
    {
        proof {
            assert(s@.subrange(i as int, n as int).skip(2) =~= s@.subrange(i + 2, n as int));
        }
        i = i + 2;
    }
    copy_range(s, i, n)
}

/// Whether `s` begins with "0x".
pub fn has_hex_prefix(s: &[char]) -> (r: bool)
    ensures
        r == (s@.len() >= 2 && s@[0] == '0' && s@[1] == 'x'),
{
    s.len() >= 2 && s[0] == '0' && s[1] == 'x'
}

/// Number of bytes of the UTF-8 encoding of `c`.
pub fn char_width(c: char) -> (r: usize)
    ensures
        r == utf8_width(c),
{
    let u = c as u32;
    if u < 0x80 {
        1
    } else if u < 0x800 {
        2
    } else if u < 0x10000 {
        3
    } else {
        4
    }
}

proof fn lemma_byte_len_take_step(s: Seq<char>, k: int)
    requires
        0 <= k < s.len(),
    ensures
        byte_len(s.take(k + 1)) == byte_len(s.take(k)) + utf8_width(s[k]),
{
    assert(s.take(k + 1).drop_last() =~= s.take(k));
}

proof fn lemma_byte_len_increasing(s: Seq<char>, i: int, j: int)
    requires
        0 <= i < j <= s.len(),
    ensures
        byte_len(s.take(i)) < byte_len(s.take(j)),
    decreases j - i,
{
    lemma_byte_len_take_step(s, j - 1);
    if i < j - 1 {
        lemma_byte_len_increasing(s, i, j - 1);
    }
}

proof fn lemma_char_at_byte_found(s: Seq<char>, b: int, k: int)
    requires
        0 <= k <= s.len(),
        byte_len(s.take(k)) == b,
    ensures
        char_at_byte(s, b) == Some(k),
{
    let c = choose|m: int| 0 <= m <= s.len() && byte_len(s.take(m)) == b;
    if c < k {
        lemma_byte_len_increasing(s, c, k);
    } else if c > k {
        lemma_byte_len_increasing(s, k, c);
    }
}

proof fn lemma_char_at_byte_missing(s: Seq<char>, b: int, k: int)
    requires
        0 <= k <= s.len(),
        forall|m: int| 0 <= m < k ==> byte_len(#[trigger] s.take(m)) < b,
        k == s.len() || byte_len(s.take(k)) > b,
        byte_len(s.take(k)) != b,
    ensures
        char_at_byte(s, b) is None,
{
    if exists|m: int| 0 <= m <= s.len() && byte_len(s.take(m)) == b {
        let m = choose|m: int| 0 <= m <= s.len() && byte_len(s.take(m)) == b;
        if m > k {
            lemma_byte_len_increasing(s, k, m);
        }
        assert(m != k);
        if m < k {
            assert(byte_len(s.take(m)) < b);
        }
    }
}

/// The character index at which byte offset `b` of `s` falls on a character
/// boundary, if it does.
pub fn char_index_at_byte(s: &[char], b: usize) -> (r: Option<usize>)
    ensures
        r matches Some(k) ==> char_at_byte(s@, b as int) == Some(k as int),
        r is None ==> char_at_byte(s@, b as int) is None,
{
    let n = s.len();
    let mut k: usize = 0;
    let mut acc: usize = 0;
    while k < n && acc < b
        invariant
            n == s@.len(),
            k <= n,
            acc == byte_len(s@.take(k as int)),
            forall|m: int| 0 <= m < k ==> byte_len(#[trigger] s@.take(m)) < b,
        decreases n - k,
    {
        proof {
            lemma_byte_len_take_step(s@, k as int);
            assert forall|m: int| 0 <= m < k + 1 implies byte_len(#[trigger] s@.take(m)) < b by {
                if m == k {
                }
            }
        }
        let w = char_width(s[k]);
        if w > b - acc {
            proof {
                lemma_char_at_byte_missing(s@, b as int, k + 1);
            }
            return None;
        }
        acc = acc + w;
        k = k + 1;
    }
    if acc == b {
        proof {
            lemma_char_at_byte_found(s@, b as int, k as int);
        }
        Some(k)
    } else {
        proof {
            lemma_char_at_byte_missing(s@, b as int, k as int);
        }
        None
    }
}

/// The characters between byte offsets `a` and `b` of `s`, or `None` where
/// `str` indexing would panic.
pub fn slice_bytes(s: &[char], a: usize, b: usize) -> (r: Option<Vec<char>>)
    ensures
        r matches Some(v) ==> byte_slice(s@, a as int, b as int) == Some(v@),
        r is None ==> byte_slice(s@, a as int, b as int) is None,
{
    let i = char_index_at_byte(s, a);
    let j = char_index_at_byte(s, b);
    match (i, j) {
        (Some(i), Some(j)) => {
            if a <= b {
                proof {
                    if i > j {
                        lemma_byte_len_increasing(s@, j as int, i as int);
                    }
                }
                Some(copy_range(s, i, j))
            } else {
                None
            }
        },
        _ => None,
    }
}

} // verus!
