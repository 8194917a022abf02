use vstd::prelude::*;

verus! {

// ---------------------------------------------------------------------------
// Text as a sequence of characters.
// ---------------------------------------------------------------------------

/// `p` occurs in `s` starting at index `i`.
pub open spec fn has_at(s: Seq<char>, i: int, p: Seq<char>) -> bool {
    &&& 0 <= i
    &&& i + p.len() <= s.len()
    &&& forall|k: int| 0 <= k < p.len() ==> #[trigger] s[i + k] == p[k]
}

/// The first index `j >= from` at which `p` occurs in `s`.
pub open spec fn find_from(s: Seq<char>, p: Seq<char>, from: int) -> Option<int>
    decreases s.len() - from,
{
    if from < 0 || from >= s.len() {
        None
    } else if has_at(s, from, p) {
        Some(from)
    } else {
        find_from(s, p, from + 1)
    }
}

/// The index of the first `c` in `s` at or after `from`, or `s.len()` when there is none.
pub open spec fn find_char(s: Seq<char>, c: char, from: int) -> int
    decreases s.len() - from,
{
    if from < 0 || from >= s.len() {
        s.len() as int
    } else if s[from] == c {
        from
    } else {
        find_char(s, c, from + 1)
    }
}

/// `c` occurs in `s`.
pub open spec fn has_char(s: Seq<char>, c: char) -> bool {
    find_char(s, c, 0) < s.len()
}

/// The part of `s` before the first `c` (all of `s` when there is none): the first piece
/// that splitting `s` on `c` gives.
pub open spec fn before_char(s: Seq<char>, c: char) -> Seq<char> {
    s.take(find_char(s, c, 0))
}

/// The part of `s` after the first `c` (empty when there is none).
pub open spec fn after_char(s: Seq<char>, c: char) -> Seq<char> {
    if has_char(s, c) {
        s.skip(find_char(s, c, 0) + 1)
    } else {
        Seq::empty()
    }
}

/// Sets of characters that the markup rules of this crate scan over.
#[derive(Clone, Copy, PartialEq, Eq, Debug)]
pub enum CharClass {
    /// Anything but `|` and `]`.
    NotPipeOrBracket,
    /// Anything but `]`.
    NotBracket,
    /// Anything but `=` and a line feed.
    NotEqualsOrNewline,
    /// ASCII letters, digits, `_` and `-`.
    IdChar,
    /// The characters of the Unicode `White_Space` property.
    WhiteSpace,
}

/// The Unicode `White_Space` characters.
pub open spec fn is_white_space(c: char) -> bool {
    ||| '\t' <= c <= '\r'
    ||| c == ' '
    ||| c == '\u{85}'
    ||| c == '\u{a0}'
    ||| c == '\u{1680}'
    ||| '\u{2000}' <= c <= '\u{200a}'
    ||| c == '\u{2028}'
    ||| c == '\u{2029}'
    ||| c == '\u{202f}'
    ||| c == '\u{205f}'
    ||| c == '\u{3000}'
}

pub open spec fn is_id_char(c: char) -> bool {
    ||| 'a' <= c <= 'z'
    ||| 'A' <= c <= 'Z'
    ||| '0' <= c <= '9'
    ||| c == '_'
    ||| c == '-'
}

pub open spec fn in_class(cls: CharClass, c: char) -> bool {
    match cls {
        CharClass::NotPipeOrBracket => c != '|' && c != ']',
        CharClass::NotBracket => c != ']',
        CharClass::NotEqualsOrNewline => c != '=' && c != '\n',
        CharClass::IdChar => is_id_char(c),
        CharClass::WhiteSpace => is_white_space(c),
    }
}

/// The end of the longest run of characters of `cls` that starts at `from`.
pub open spec fn run_end(s: Seq<char>, from: int, cls: CharClass) -> int
    decreases s.len() - from,
{
    if from < 0 || from >= s.len() || !in_class(cls, s[from]) {
        from
    } else {
        run_end(s, from + 1, cls)
    }
}

pub proof fn lemma_run_end(s: Seq<char>, from: int, cls: CharClass)
    requires
        0 <= from <= s.len(),
    ensures
        from <= run_end(s, from, cls) <= s.len(),
        forall|k: int| from <= k < run_end(s, from, cls) ==> in_class(cls, #[trigger] s[k]),
        run_end(s, from, cls) < s.len() ==> !in_class(cls, s[run_end(s, from, cls)]),
    decreases s.len() - from,
{
    if from < s.len() && in_class(cls, s[from]) {
        lemma_run_end(s, from + 1, cls);
    }
}

pub proof fn lemma_find_char(s: Seq<char>, c: char, from: int)
    requires
        0 <= from <= s.len(),
    ensures
        from <= find_char(s, c, from) <= s.len(),
        forall|k: int| from <= k < find_char(s, c, from) ==> #[trigger] s[k] != c,
        find_char(s, c, from) < s.len() ==> s[find_char(s, c, from)] == c,
    decreases s.len() - from,
{
    if from < s.len() && s[from] != c {
        lemma_find_char(s, c, from + 1);
    }
}

pub proof fn lemma_find_from(s: Seq<char>, p: Seq<char>, from: int)
    requires
        0 <= from,
    ensures
        find_from(s, p, from) matches Some(j) ==> from <= j && j < s.len() && has_at(s, j, p),
    decreases s.len() - from,
{
    if from < s.len() && !has_at(s, from, p) {
        lemma_find_from(s, p, from + 1);
    }
}

/// Applies `f` to every character and concatenates the results.
pub open spec fn flat_map_chars(s: Seq<char>, f: spec_fn(char) -> Seq<char>) -> Seq<char>
    decreases s.len(),
{
    if s.len() == 0 {
        Seq::empty()
    } else {
        flat_map_chars(s.drop_last(), f) + f(s.last())
    }
}

/// The decimal digit for `d < 10`.
pub open spec fn digit_char(d: nat) -> char {
    if d == 0 { '0' }
    else if d == 1 { '1' }
    else if d == 2 { '2' }
    else if d == 3 { '3' }
    else if d == 4 { '4' }
    else if d == 5 { '5' }
    else if d == 6 { '6' }
    else if d == 7 { '7' }
    else if d == 8 { '8' }
    else { '9' }
}

/// The decimal numeral of `n`, without leading zeros.
pub open spec fn decimal(n: nat) -> Seq<char>
    decreases n,
{
    if n < 10 {
        seq![digit_char(n)]
    } else {
        decimal(n / 10).push(digit_char(n % 10))
    }
}

// ---------------------------------------------------------------------------
// Executable counterparts.
// ---------------------------------------------------------------------------

/// Copies the characters of `s` into a fresh vector.
pub fn chars_of(s: &str) -> (v: Vec<char>)
    ensures
        v@ == s@,
{
    let mut v: Vec<char> = Vec::new();
    for c in it: s.chars()
        invariant
            v@ == it.seq().take(it.index() as int),
            it.seq() == s@,
    {
        v.push(c);
    }
    v
}

/// Appends the characters of `lit` to `out`.
pub fn push_str(out: &mut Vec<char>, lit: &str)
    ensures
        final(out)@ == old(out)@ + lit@,
{
    let ghost start = out@;
    for c in it: lit.chars()
        invariant
            out@ == start + it.seq().take(it.index() as int),
            it.seq() == lit@,
    {
        out.push(c);
    }
}

/// Appends `s[from..to]` to `out`.
pub fn push_range(out: &mut Vec<char>, s: &Vec<char>, from: usize, to: usize)
    requires
        from <= to <= s.len(),
    ensures
        final(out)@ == old(out)@ + s@.subrange(from as int, to as int),
{
    let ghost start = out@;
    let mut i = from;
    while i < to
        invariant
            from <= i <= to <= s.len(),
            out@ == start + s@.subrange(from as int, i as int),
        decreases to - i,
    {
        out.push(s[i]);
        i += 1;
    }
}


/// A fresh vector holding `s[from..to]`.
pub fn copy_range(s: &Vec<char>, from: usize, to: usize) -> (r: Vec<char>)
    requires
        from <= to <= s.len(),
    ensures
        r@ == s@.subrange(from as int, to as int),
{
    let mut r: Vec<char> = Vec::new();
    push_range(&mut r, s, from, to);
    r
}

/// Whether `c` occurs in `s`.
pub fn has_char_exec(s: &Vec<char>, c: char) -> (b: bool)
    ensures
        b == has_char(s@, c),
{
    find_char_exec(s, c, 0) < s.len()
}

/// The part of `s` before its first `c`.
pub fn before_char_exec(s: &Vec<char>, c: char) -> (r: Vec<char>)
    ensures
        r@ == before_char(s@, c),
{
    let e = find_char_exec(s, c, 0);
    proof {
        lemma_find_char(s@, c, 0);
    }
    copy_range(s, 0, e)
}

/// The part of `s` after its first `c`.
pub fn after_char_exec(s: &Vec<char>, c: char) -> (r: Vec<char>)
    ensures
        r@ == after_char(s@, c),
{
    let e = find_char_exec(s, c, 0);
    proof {
        lemma_find_char(s@, c, 0);
    }
    if e < s.len() {
        copy_range(s, e + 1, s.len())
    } else {
        Vec::new()
    }
}

/// `find_char` on a suffix is `find_char` on the whole text, shifted.
pub proof fn lemma_find_char_skip(s: Seq<char>, c: char, start: int, j: int)
    requires
        0 <= start <= s.len(),
        0 <= j,
    ensures
        find_char(s.skip(start), c, j) + start == find_char(s, c, start + j),
    decreases s.len() - start - j,
{
    if start + j < s.len() {
        assert(s.skip(start)[j] == s[start + j]);
        lemma_find_char_skip(s, c, start, j + 1);
    }
}

/// `p` occurs somewhere in `s`.
pub open spec fn contains_seq(s: Seq<char>, p: Seq<char>) -> bool {
    exists|i: int| has_at(s, i, p)
}

/// Whether `p` occurs in `s`.
pub fn contains_exec(s: &Vec<char>, p: &Vec<char>) -> (b: bool)
    ensures
        b == contains_seq(s@, p@),
{
    if p.len() > s.len() {
        proof {
            assert forall|i: int| !has_at(s@, i, p@) by {}
        }
        return false;
    }
    let last = s.len() - p.len();
    let mut i: usize = 0;
    while i <= last
        invariant
            last == s.len() - p.len(),
            p.len() <= s.len(),
            i <= last + 1,
            forall|m: int| 0 <= m < i ==> !has_at(s@, m, p@),
        decreases last + 1 - i,
    {
        if has_at_exec(s, i, p.as_slice()) {
            return true;
        }
        i += 1;
    }
    proof {
        assert forall|m: int| !has_at(s@, m, p@) by {
            if 0 <= m < i {
            }
        }
    }
    false
}

/// The pieces of `s` between the occurrences of `d`, as `str::split` gives them: empty
/// pieces included, and at least one piece.
pub open spec fn split_on(s: Seq<char>, d: char) -> Seq<Seq<char>>
    decreases s.len(),
{
    if has_char(s, d) {
        proof {
            lemma_find_char(s, d, 0);
        }
        seq![before_char(s, d)] + split_on(after_char(s, d), d)
    } else {
        seq![s]
    }
}

/// The texts that a sequence of character vectors holds.
pub open spec fn views(v: Seq<Vec<char>>) -> Seq<Seq<char>> {
    v.map_values(|x: Vec<char>| x@)
}

/// Splits `s` on `d`.
pub fn split_exec(s: &Vec<char>, d: char) -> (r: Vec<Vec<char>>)
    ensures
        views(r@) == split_on(s@, d),
{
    let mut pieces: Vec<Vec<char>> = Vec::new();
    let mut start: usize = 0;
    proof {
        assert(s@.skip(0) =~= s@);
        assert(views(pieces@) =~= Seq::<Seq<char>>::empty());
        assert(split_on(s@, d) =~= views(pieces@) + split_on(s@.skip(0), d));
    }
    loop
        invariant
            start <= s.len(),
            split_on(s@, d) == views(pieces@) + split_on(s@.skip(start as int), d),
        decreases s.len() - start,
    {
        let ghost rest = s@.skip(start as int);
        let ghost before = views(pieces@);
        let j = find_char_exec(s, d, start);
        proof {
            lemma_find_char_skip(s@, d, start as int, 0);
            lemma_find_char(s@, d, start as int);
            lemma_find_char(rest, d, 0);
        }
        if j == s.len() {
            let piece = copy_range(s, start, s.len());
            pieces.push(piece);
            proof {
                assert(piece@ =~= rest);
                assert(views(pieces@) =~= before.push(piece@));
                assert(split_on(s@, d) =~= views(pieces@));
            }
            return pieces;
        } else {
            let piece = copy_range(s, start, j);
            pieces.push(piece);
            start = j + 1;
            proof {
                assert(piece@ =~= before_char(rest, d));
                assert(after_char(rest, d) =~= s@.skip(start as int));
                assert(views(pieces@) =~= before.push(piece@));
                assert(split_on(s@, d) =~= views(pieces@) + split_on(s@.skip(start as int), d));
            }
        }
    }
}

/// Whether two texts are equal.
pub fn same_text(a: &Vec<char>, b: &Vec<char>) -> (r: bool)
    ensures
        r == (a@ == b@),
{
    if a.len() != b.len() {
        return false;
    }
    let mut i: usize = 0;
    while i < a.len()
        invariant
            a.len() == b.len(),
            i <= a.len(),
            forall|k: int| 0 <= k < i ==> a@[k] == b@[k],
        decreases a.len() - i,
    {
        if a[i] != b[i] {
            return false;
        }
        i += 1;
    }
    proof {
        assert(a@ =~= b@);
    }
    true
}

/// Builds a `String` from its characters by collecting them (`FromIterator<char>` for
/// `String`). Trusted: the string holds exactly these characters, in order.
#[verifier::external_body]
pub(crate) fn string_from_chars(v: &[char]) -> (s: String)
    ensures
        s@ == v@,
{
    v.iter().collect()
}

/// Whether `p` occurs in `s` at index `i`.
pub fn has_at_exec(s: &Vec<char>, i: usize, p: &[char]) -> (b: bool)
    ensures
        b == has_at(s@, i as int, p@),
{
    if p.len() > s.len() || i > s.len() - p.len() {
        return false;
    }
    let mut k: usize = 0;
    while k < p.len()
        invariant
            i + p.len() <= s.len(),
            k <= p.len(),
            forall|m: int| 0 <= m < k ==> #[trigger] s@[i + m] == p@[m],
        decreases p.len() - k,
    {
        if s[i + k] != p[k] {
            return false;
        }
        k += 1;
    }
    true
}

/// The first index at or after `from` at which `p` occurs in `s`.
pub fn find_from_exec(s: &Vec<char>, p: &[char], from: usize) -> (r: Option<usize>)
    ensures
        r matches Some(j) ==> find_from(s@, p@, from as int) == Some(j as int),
        r is None ==> find_from(s@, p@, from as int) is None,
{
    let mut j = from;
    while j < s.len()
        invariant
            from <= j,
            find_from(s@, p@, from as int) == find_from(s@, p@, j as int),
        decreases s.len() - j,
    {
        if has_at_exec(s, j, p) {
            return Some(j);
        }
        j += 1;
    }
    None
}

/// The index of the first `c` at or after `from`, or `s.len()`.
pub fn find_char_exec(s: &Vec<char>, c: char, from: usize) -> (r: usize)
    requires
        from <= s.len(),
    ensures
        r as int == find_char(s@, c, from as int),
{
    let mut j = from;
    while j < s.len() && s[j] != c
        invariant
            from <= j <= s.len(),
            find_char(s@, c, from as int) == find_char(s@, c, j as int),
        decreases s.len() - j,
    {
        j += 1;
    }
    j
}

pub fn white_space_exec(c: char) -> (b: bool)
    ensures
        b == is_white_space(c),
{
    ('\t' <= c && c <= '\r') || c == ' ' || c == '\u{85}' || c == '\u{a0}' || c == '\u{1680}'
        || ('\u{2000}' <= c && c <= '\u{200a}') || c == '\u{2028}' || c == '\u{2029}'
        || c == '\u{202f}' || c == '\u{205f}' || c == '\u{3000}'
}

pub fn in_class_exec(cls: CharClass, c: char) -> (b: bool)
    ensures
        b == in_class(cls, c),
{
    match cls {
        CharClass::NotPipeOrBracket => c != '|' && c != ']',
        CharClass::NotBracket => c != ']',
        CharClass::NotEqualsOrNewline => c != '=' && c != '\n',
        CharClass::IdChar => ('a' <= c && c <= 'z') || ('A' <= c && c <= 'Z') || ('0' <= c
            && c <= '9') || c == '_' || c == '-',
        CharClass::WhiteSpace => white_space_exec(c),
    }
}

/// The end of the longest run of characters of `cls` starting at `from`.
pub fn run_end_exec(s: &Vec<char>, from: usize, cls: CharClass) -> (r: usize)
    requires
        from <= s.len(),
    ensures
        r as int == run_end(s@, from as int, cls),
{
    let mut j = from;
    while j < s.len() && in_class_exec(cls, s[j])
        invariant
            from <= j <= s.len(),
            run_end(s@, from as int, cls) == run_end(s@, j as int, cls),
        decreases s.len() - j,
    {
        j += 1;
    }
    j
}

pub fn digit_char_exec(d: u128) -> (c: char)
    requires
        d < 10,
    ensures
        c == digit_char(d as nat),
{
    if d == 0 { '0' }
    else if d == 1 { '1' }
    else if d == 2 { '2' }
    else if d == 3 { '3' }
    else if d == 4 { '4' }
    else if d == 5 { '5' }
    else if d == 6 { '6' }
    else if d == 7 { '7' }
    else if d == 8 { '8' }
    else { '9' }
}

/// Appends the decimal numeral of `n` to `out`.
pub fn push_decimal(out: &mut Vec<char>, n: u128)
    ensures
        final(out)@ == old(out)@ + decimal(n as nat),
    decreases n,
{
    if n >= 10 {
        push_decimal(out, n / 10);
    }
    out.push(digit_char_exec(n % 10));
}

} // verus!
