//! Character-level helpers shared by the parsers: character classes, the
//! trimming of both ends of a character sequence, and searching for one
//! character.

use vstd::prelude::*;

verus! {

/// The characters that count as white space: the Unicode `White_Space` set.
pub open spec fn is_space(c: char) -> bool {
    let n = c as u32;
    (0x09 <= n && n <= 0x0D) || n == 0x20 || n == 0x85 || n == 0xA0 || n == 0x1680 || (0x2000 <= n
        && n <= 0x200A) || n == 0x2028 || n == 0x2029 || n == 0x202F || n == 0x205F || n == 0x3000
}

/// A class of characters that can be trimmed from the ends of a line.
#[derive(Clone, Copy, Debug)]
pub enum CharClass {
    /// White space, as `is_space` defines it.
    Space,
    /// The NUL character, which pads wide-character files.
    Nul,
}

impl CharClass {
    /// Membership of `c` in the class.
    pub open spec fn has(self, c: char) -> bool {
        match self {
            CharClass::Space => is_space(c),
            CharClass::Nul => c == '\0',
        }
    }

    /// Tells whether `c` belongs to the class.
    pub fn contains(&self, c: char) -> (r: bool)
        ensures
            r == self.has(c),
    {
        match self {
            CharClass::Space => {
                let n: u32 = c as u32;
                (0x09 <= n && n <= 0x0D) || n == 0x20 || n == 0x85 || n == 0xA0 || n == 0x1680 || (
                0x2000 <= n && n <= 0x200A) || n == 0x2028 || n == 0x2029 || n == 0x202F || n
                    == 0x205F || n == 0x3000
            },
            CharClass::Nul => c == '\0',
        }
    }
}

/// The first position at or after `i` whose character is outside `class`, or
/// the length of `s` when there is none.
pub open spec fn skip_front(s: Seq<char>, class: CharClass, i: int) -> int
    decreases s.len() - i,
{
    if 0 <= i < s.len() && class.has(s[i]) {
        skip_front(s, class, i + 1)
    } else {
        i
    }
}

/// The end of the shortest prefix of `s[..j]` that holds every character of
/// `s[lo..j]` outside `class`: the position after the last such character,
/// or `lo` when there is none.
pub open spec fn skip_back(s: Seq<char>, class: CharClass, lo: int, j: int) -> int
    decreases j - lo,
{
    if lo < j <= s.len() && class.has(s[j - 1]) {
        skip_back(s, class, lo, j - 1)
    } else {
        j
    }
}

/// `s` without its leading and trailing characters of `class`.
pub open spec fn trim(s: Seq<char>, class: CharClass) -> Seq<char> {
    let a = skip_front(s, class, 0);
    let b = skip_back(s, class, a, s.len() as int);
    s.subrange(a, b)
}

/// What `skip_front` returns: everything it passes over is in the class, and
/// it stops at a character outside the class or at the end.
pub proof fn lemma_skip_front(s: Seq<char>, class: CharClass, i: int)
    requires
        0 <= i <= s.len(),
    ensures
        i <= skip_front(s, class, i) <= s.len(),
        forall|k: int| i <= k < skip_front(s, class, i) ==> class.has(s[k]),
        skip_front(s, class, i) < s.len() ==> !class.has(s[skip_front(s, class, i)]),
    decreases s.len() - i,
{
    if i < s.len() && class.has(s[i]) {
        lemma_skip_front(s, class, i + 1);
    }
}

/// What `skip_back` returns: everything it passes over is in the class, and
/// it stops after a character outside the class or at `lo`.
pub proof fn lemma_skip_back(s: Seq<char>, class: CharClass, lo: int, j: int)
    requires
        0 <= lo <= j <= s.len(),
    ensures
        lo <= skip_back(s, class, lo, j) <= j,
        forall|k: int| skip_back(s, class, lo, j) <= k < j ==> class.has(s[k]),
        lo < skip_back(s, class, lo, j) ==> !class.has(s[skip_back(s, class, lo, j) - 1]),
    decreases j - lo,
{
    if lo < j && class.has(s[j - 1]) {
        lemma_skip_back(s, class, lo, j - 1);
    }
}

/// A trimmed sequence neither begins nor ends with a character of the class.
pub proof fn lemma_trim_ends(s: Seq<char>, class: CharClass)
    ensures
        trim(s, class).len() <= s.len(),
        trim(s, class).len() > 0 ==> !class.has(trim(s, class).first()) && !class.has(
            trim(s, class).last(),
        ),
{
    lemma_skip_front(s, class, 0);
    let a = skip_front(s, class, 0);
    lemma_skip_back(s, class, a, s.len() as int);
}

/// Trimming leaves alone a sequence that neither begins nor ends with a
/// character of the class.
pub proof fn lemma_trim_fixed(s: Seq<char>, class: CharClass)
    requires
        s.len() > 0 ==> !class.has(s.first()) && !class.has(s.last()),
    ensures
        trim(s, class) == s,
{
    assert(s.subrange(0, s.len() as int) =~= s);
}

/// The first position at or after `i` that holds `c`, or the length of `s`
/// when there is none.
pub open spec fn find_from<T>(s: Seq<T>, c: T, i: int) -> int
    decreases s.len() - i,
{
    if 0 <= i < s.len() && s[i] != c {
        find_from(s, c, i + 1)
    } else {
        i
    }
}

/// What `find_from` returns: nothing it passes over is `c`, and it stops at
/// `c` or at the end.
pub proof fn lemma_find_from<T>(s: Seq<T>, c: T, i: int)
    requires
        0 <= i <= s.len(),
    ensures
        i <= find_from(s, c, i) <= s.len(),
        forall|k: int| i <= k < find_from(s, c, i) ==> s[k] != c,
        find_from(s, c, i) < s.len() ==> s[find_from(s, c, i)] == c,
    decreases s.len() - i,
{
    if i < s.len() && s[i] != c {
        lemma_find_from(s, c, i + 1);
    }
}

/// The characters of a string, in order.
pub fn chars_of(s: &str) -> (r: Vec<char>)
    ensures
        r@ == s@,
{
    let mut out: Vec<char> = Vec::new();
    for c in it: s.chars()
        invariant
            out@ == it.seq().take(it.index() as int),
    {
        out.push(c);
    }
    out
}

/// Walks forward from `i` over the characters of `class`.
pub fn scan_front(chars: &Vec<char>, class: CharClass, i: usize) -> (r: usize)
    requires
        i <= chars@.len(),
    ensures
        r == skip_front(chars@, class, i as int),
        i <= r <= chars@.len(),
{
    let mut k: usize = i;
    while k < chars.len() && class.contains(chars[k])
        invariant
            i <= k <= chars@.len(),
            skip_front(chars@, class, i as int) == skip_front(chars@, class, k as int),
        decreases chars@.len() - k,
    {
        k += 1;
    }
    k
}

/// Walks backward from `j` over the characters of `class`, down to `lo` at
/// most.
pub fn scan_back(chars: &Vec<char>, class: CharClass, lo: usize, j: usize) -> (r: usize)
    requires
        lo <= j <= chars@.len(),
    ensures
        r == skip_back(chars@, class, lo as int, j as int),
        lo <= r <= j,
{
    let mut k: usize = j;
    while k > lo && class.contains(chars[k - 1])
        invariant
            lo <= k <= j,
            j <= chars@.len(),
            skip_back(chars@, class, lo as int, j as int) == skip_back(
                chars@,
                class,
                lo as int,
                k as int,
            ),
        decreases k - lo,
    {
        k -= 1;
    }
    k
}

/// Finds the first `c` at or after `i`; returns the length when there is
/// none.
pub fn scan_for(chars: &Vec<char>, c: char, i: usize) -> (r: usize)
    requires
        i <= chars@.len(),
    ensures
        r == find_from(chars@, c, i as int),
        i <= r <= chars@.len(),
{
    let mut k: usize = i;
    while k < chars.len() && chars[k] != c
        invariant
            i <= k <= chars@.len(),
            find_from(chars@, c, i as int) == find_from(chars@, c, k as int),
        decreases chars@.len() - k,
    {
        k += 1;
    }
    k
}

/// A copy of the characters of `chars` from `from` up to `to`.
pub fn slice_chars(chars: &Vec<char>, from: usize, to: usize) -> (r: Vec<char>)
    requires
        from <= to <= chars@.len(),
    ensures
        r@ == chars@.subrange(from as int, to as int),
{
    let mut out: Vec<char> = Vec::new();
    let mut k: usize = from;
    while k < to
        invariant
            from <= k <= to <= chars@.len(),
            out@ == chars@.subrange(from as int, k as int),
        decreases to - k,
    {
        out.push(chars[k]);
        k += 1;
    }
    out
}

} // verus!

verus! {

/// `s` without its leading and trailing characters of `class`, as a new
/// string.
pub fn trim_str(s: &str, class: CharClass) -> (r: String)
    ensures
        r@ == trim(s@, class),
{
    let chars = chars_of(s);
    let a = scan_front(&chars, class, 0);
    let b = scan_back(&chars, class, a, chars.len());
    s.substring_char(a, b).to_owned()
}

/// Dropping white space from the end of a sequence makes no difference to
/// what trimming leaves.
pub proof fn lemma_trim_dropped_spaces(s: Seq<char>, m: int)
    requires
        0 <= m <= s.len(),
        forall|k: int| m <= k < s.len() ==> is_space(#[trigger] s[k]),
    ensures
        trim(s.subrange(0, m), CharClass::Space) == trim(s, CharClass::Space),
    decreases s.len() - m,
{
    if m < s.len() {
        lemma_trim_dropped_spaces(s, m + 1);
        assert(s.subrange(0, m + 1) =~= s.subrange(0, m) + seq![s[m]]);
        lemma_trim_appended_space(s.subrange(0, m), s[m]);
    } else {
        assert(s.subrange(0, m) =~= s);
    }
}

/// A trimmed sequence holds only characters of the sequence.
pub proof fn lemma_trim_within(s: Seq<char>, class: CharClass)
    ensures
        forall|x: char| trim(s, class).contains(x) ==> s.contains(x),
{
    lemma_skip_front(s, class, 0);
    let a = skip_front(s, class, 0);
    lemma_skip_back(s, class, a, s.len() as int);
    let u = trim(s, class);
    assert forall|x: char| u.contains(x) implies s.contains(x) by {
        let k = choose|k: int| 0 <= k < u.len() && u[k] == x;
        assert(u[k] == s[a + k]);
    }
}

/// Nothing is trimmed from the front of a sequence that begins with a
/// character outside the class.
pub proof fn lemma_skip_front_is_zero(s: Seq<char>, class: CharClass)
    requires
        s.len() > 0,
        !class.has(s[0]),
    ensures
        skip_front(s, class, 0) == 0,
{
}

/// A position from `i` on before which `c` does not occur, and which holds
/// `c` or is the end, is the one that `find_from` finds.
pub proof fn lemma_find_from_is<T>(s: Seq<T>, c: T, i: int, m: int)
    requires
        0 <= i <= m <= s.len(),
        forall|k: int| i <= k < m ==> s[k] != c,
        m < s.len() ==> s[m] == c,
    ensures
        find_from(s, c, i) == m,
    decreases m - i,
{
    if i < m {
        lemma_find_from_is(s, c, i + 1, m);
    }
}

/// Searching in what is left of a sequence finds the same place as
/// searching the sequence from there.
pub proof fn lemma_find_from_skip<T>(s: Seq<T>, c: T, i: int)
    requires
        0 <= i <= s.len(),
    ensures
        find_from(s, c, i) == i + find_from(s.skip(i), c, 0),
{
    lemma_find_from(s, c, i);
    let m = find_from(s, c, i);
    let t = s.skip(i);
    assert forall|k: int| 0 <= k < m - i implies t[k] != c by {
        assert(t[k] == s[i + k]);
    }
    if m < s.len() {
        assert(t[m - i] == s[m]);
    }
    lemma_find_from_is(t, c, 0, m - i);
}

/// A position from `i` on before which all is of the class, and which
/// holds a character outside the class or is the end, is the one that
/// `skip_front` finds.
pub proof fn lemma_skip_front_is(s: Seq<char>, class: CharClass, i: int, m: int)
    requires
        0 <= i <= m <= s.len(),
        forall|k: int| i <= k < m ==> class.has(#[trigger] s[k]),
        m < s.len() ==> !class.has(s[m]),
    ensures
        skip_front(s, class, i) == m,
    decreases m - i,
{
    if i < m {
        lemma_skip_front_is(s, class, i + 1, m);
    }
}

/// A position down to `lo` after which all up to `j` is of the class, and
/// before which stands a character outside the class or `lo` itself, is the
/// one that `skip_back` finds.
pub proof fn lemma_skip_back_is(s: Seq<char>, class: CharClass, lo: int, j: int, m: int)
    requires
        0 <= lo <= m <= j <= s.len(),
        forall|k: int| m <= k < j ==> class.has(#[trigger] s[k]),
        lo < m ==> !class.has(s[m - 1]),
    ensures
        skip_back(s, class, lo, j) == m,
    decreases j - m,
{
    if m < j {
        lemma_skip_back_is(s, class, lo, j - 1, m);
    }
}

/// White space at the end of a sequence is trimmed with the rest of the
/// white space there.
pub proof fn lemma_trim_appended_space(s: Seq<char>, c: char)
    requires
        CharClass::Space.has(c),
    ensures
        trim(s + seq![c], CharClass::Space) == trim(s, CharClass::Space),
{
    let class = CharClass::Space;
    let t = s + seq![c];
    let n = s.len() as int;
    lemma_skip_front(s, class, 0);
    let a = skip_front(s, class, 0);
    lemma_skip_back(s, class, a, n);
    let b = skip_back(s, class, a, n);
    assert forall|k: int| 0 <= k < a implies class.has(#[trigger] t[k]) by {
        assert(t[k] == s[k]);
    }
    if a < n {
        assert(t[a] == s[a]);
        lemma_skip_front_is(t, class, 0, a);
        assert forall|k: int| b <= k < n + 1 implies class.has(#[trigger] t[k]) by {
            if k < n {
                assert(t[k] == s[k]);
            }
        }
        if a < b {
            assert(t[b - 1] == s[b - 1]);
        }
        lemma_skip_back_is(t, class, a, n + 1, b);
        assert(t.subrange(a, b) =~= s.subrange(a, b));
    } else {
        lemma_skip_front_is(t, class, 0, n + 1);
        assert(t.subrange(n + 1, n + 1) =~= s.subrange(a, b));
    }
}

} // verus!
