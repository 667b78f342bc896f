//! Text handling over sequences of characters.
//!
//! Each function is specified by a spec function on `Seq<char>` that says what
//! the text is, so that the parsers and report writers of the other modules
//! can state their results directly.

use vstd::prelude::*;

verus! {

/// `String::push` appends one character to the end of the string.
pub assume_specification[ String::push ](s: &mut String, c: char)
    ensures
        final(s)@ == old(s)@.push(c),
;

// ------------------------------------------------------------ Conversions

/// The characters of `s`, in order.
pub fn chars_of(s: &str) -> (v: Vec<char>)
    ensures
        v@ == s@,
{
    let mut v: Vec<char> = Vec::new();
    let mut it = s.chars();
    proof {
        broadcast use vstd::string::group_string_axioms;
    }
    loop
        invariant
            vstd::std_specs::iter::IteratorSpec::obeys_prophetic_iter_laws(&it),
            v@ + vstd::std_specs::iter::IteratorSpec::remaining(&it) =~= s@,
            vstd::std_specs::iter::IteratorSpec::decrease(&it) is Some,
        ensures
            v@ == s@,
        decreases vstd::std_specs::iter::IteratorSpec::decrease(&it)->0,
    {
        match it.next() {
            Some(c) => {
                v.push(c);
            },
            None => {
                break;
            },
        }
    }
    v
}

/// The string made of the given characters.
pub fn string_of(cs: &[char]) -> (s: String)
    ensures
        s@ == cs@,
{
    let mut s = String::new();
    let mut i: usize = 0;
    while i < cs.len()
        invariant
            i <= cs@.len(),
            s@ == cs@.take(i as int),
        decreases cs@.len() - i,
    {
        s.push(cs[i]);
        i += 1;
    }
    s
}


/// The view of a list grows with the list.
pub proof fn lemma_pushed_view<T: DeepView>(before: Vec<T>, after: Vec<T>, item: T)
    requires
        after@ == before@.push(item),
    ensures
        after.deep_view() == before.deep_view().push(item.deep_view()),
{
    assert(after.deep_view() =~= before.deep_view().push(item.deep_view()));
}

/// Whether two texts are the same.
pub fn same(a: &str, b: &str) -> (r: bool)
    ensures
        r == (a@ == b@),
{
    a.to_owned() == b.to_owned()
}

// ------------------------------------------------------ Character classes

/// The sets of characters that the parsers strip from their tokens.
pub enum CharClass {
    /// Unicode white space.
    Space,
    /// `(` and `)`.
    Parens,
    /// `(`, `)`, `[`, `]` and `,`.
    HopMarks,
    /// `:`.
    Colon,
}

/// Unicode `White_Space`.
pub open spec fn is_space(c: char) -> bool {
    ||| '\u{9}' <= c <= '\u{d}'
    ||| c == ' '
    ||| c == '\u{85}'
    ||| c == '\u{a0}'
    ||| c == '\u{1680}'
    ||| '\u{2000}' <= c <= '\u{200a}'
    ||| c == '\u{2028}'
    ||| c == '\u{2029}'
    ||| c == '\u{202f}'
    ||| c == '\u{205f}'
    ||| c == '\u{3000}'
}

/// Whether `c` belongs to the class `k`.
pub open spec fn in_class(c: char, k: CharClass) -> bool {
    match k {
        CharClass::Space => is_space(c),
        CharClass::Parens => c == '(' || c == ')',
        CharClass::HopMarks => c == '(' || c == ')' || c == '[' || c == ']' || c == ',',
        CharClass::Colon => c == ':',
    }
}

/// Tests for Unicode `White_Space`.
pub fn is_space_char(c: char) -> (r: bool)
    ensures
        r == is_space(c),
{
    ('\u{9}' <= c && c <= '\u{d}') || c == ' ' || c == '\u{85}' || c == '\u{a0}' || c == '\u{1680}'
        || ('\u{2000}' <= c && c <= '\u{200a}') || c == '\u{2028}' || c == '\u{2029}'
        || c == '\u{202f}' || c == '\u{205f}' || c == '\u{3000}'
}

/// Tests for membership of a class.
pub fn is_in_class(c: char, k: &CharClass) -> (r: bool)
    ensures
        r == in_class(c, *k),
{
    match k {
        CharClass::Space => is_space_char(c),
        CharClass::Parens => c == '(' || c == ')',
        CharClass::HopMarks => c == '(' || c == ')' || c == '[' || c == ']' || c == ',',
        CharClass::Colon => c == ':',
    }
}

// --------------------------------------------------------------- Stripping

/// `s` without its leading characters of class `k`.
pub open spec fn strip_start(s: Seq<char>, k: CharClass) -> Seq<char>
    decreases s.len(),
{
    if s.len() > 0 && in_class(s[0], k) {
        strip_start(s.skip(1), k)
    } else {
        s
    }
}

/// `s` without its trailing characters of class `k`.
pub open spec fn strip_end(s: Seq<char>, k: CharClass) -> Seq<char>
    decreases s.len(),
{
    if s.len() > 0 && in_class(s.last(), k) {
        strip_end(s.drop_last(), k)
    } else {
        s
    }
}

/// `s` without its leading and trailing characters of class `k`.
pub open spec fn strip(s: Seq<char>, k: CharClass) -> Seq<char> {
    strip_end(strip_start(s, k), k)
}

/// `s` without leading and trailing white space.
pub open spec fn trimmed(s: Seq<char>) -> Seq<char> {
    strip(s, CharClass::Space)
}

proof fn lemma_strip_start_len(s: Seq<char>, k: CharClass)
    ensures
        strip_start(s, k).len() <= s.len(),
    decreases s.len(),
{
    if s.len() > 0 && in_class(s[0], k) {
        lemma_strip_start_len(s.skip(1), k);
    }
}

/// Removes the trailing characters of class `k`.
pub fn remove_end(s: &str, k: &CharClass) -> (r: String)
    ensures
        r@ == strip_end(s@, *k),
{
    let cs = chars_of(s);
    let mut j: usize = cs.len();
    assert(cs@.take(j as int) =~= cs@);
    while j > 0 && is_in_class(cs[j - 1], k)
        invariant
            cs@ == s@,
            j <= cs@.len(),
            strip_end(s@, *k) == strip_end(cs@.take(j as int), *k),
        decreases j,
    {
        assert(cs@.take(j as int).drop_last() =~= cs@.take(j - 1));
        j -= 1;
    }
    string_of(vstd::slice::slice_subrange(cs.as_slice(), 0, j))
}

/// Removes the leading and trailing characters of class `k`.
pub fn remove_around(s: &str, k: &CharClass) -> (r: String)
    ensures
        r@ == strip(s@, *k),
{
    let cs = chars_of(s);
    let n = cs.len();
    let mut i: usize = 0;
    assert(cs@.skip(0) =~= cs@);
    while i < n && is_in_class(cs[i], k)
        invariant
            cs@ == s@,
            n == cs@.len(),
            i <= n,
            strip_start(s@, *k) == strip_start(cs@.skip(i as int), *k),
        decreases n - i,
    {
        assert(cs@.skip(i as int).skip(1) =~= cs@.skip(i + 1));
        i += 1;
    }
    let mut j: usize = n;
    assert(cs@.subrange(i as int, j as int) =~= cs@.skip(i as int));
    while j > i && is_in_class(cs[j - 1], k)
        invariant
            n == cs@.len(),
            i <= j <= n,
            strip_end(strip_start(s@, *k), *k) == strip_end(cs@.subrange(i as int, j as int), *k),
        decreases j,
    {
        assert(cs@.subrange(i as int, j as int).drop_last() =~= cs@.subrange(i as int, j - 1));
        j -= 1;
    }
    string_of(vstd::slice::slice_subrange(cs.as_slice(), i, j))
}

/// Removes leading and trailing white space.
pub fn trim(s: &str) -> (r: String)
    ensures
        r@ == trimmed(s@),
{
    remove_around(s, &CharClass::Space)
}

/// Whether `s` holds nothing but whitespace.
pub fn is_blank(s: &str) -> (r: bool)
    ensures
        r == (trimmed(s@).len() == 0),
{
    trim(s).as_str().is_empty()
}

/// Whether `s` holds white space only.
pub open spec fn all_space(s: Seq<char>) -> bool {
    forall|i: int| 0 <= i < s.len() ==> is_space(#[trigger] s[i])
}

proof fn lemma_space_stripped(s: Seq<char>)
    ensures
        strip_start(s, CharClass::Space).len() == 0 <==> all_space(s),
    decreases s.len(),
{
    if s.len() > 0 && is_space(s[0]) {
        lemma_space_stripped(s.skip(1));
        if all_space(s.skip(1)) {
            assert forall|i: int| 0 <= i < s.len() implies is_space(#[trigger] s[i]) by {
                if i > 0 {
                    assert(s.skip(1)[i - 1] == s[i]);
                }
            }
        }
        if all_space(s) {
            assert(all_space(s.skip(1)));
        }
    }
}

proof fn lemma_space_stripped_end(s: Seq<char>)
    requires
        strip_end(s, CharClass::Space).len() == 0,
    ensures
        all_space(s),
    decreases s.len(),
{
    if s.len() > 0 {
        lemma_space_stripped_end(s.drop_last());
        assert forall|i: int| 0 <= i < s.len() implies is_space(#[trigger] s[i]) by {
            if i < s.len() - 1 {
                assert(s.drop_last()[i] == s[i]);
            }
        }
    }
}

/// Nothing is left of a text by trimming exactly when it is white space only.
pub proof fn lemma_blank(s: Seq<char>)
    ensures
        trimmed(s).len() == 0 <==> all_space(s),
{
    let t = strip_start(s, CharClass::Space);
    lemma_space_stripped(s);
    if strip_end(t, CharClass::Space).len() == 0 {
        lemma_space_stripped_end(t);
        lemma_strip_start_stops(s, CharClass::Space);
    }
}

proof fn lemma_strip_start_suffix(s: Seq<char>, k: CharClass)
    ensures
        strip_start(s, k).len() <= s.len(),
        strip_start(s, k) == s.skip(s.len() - strip_start(s, k).len()),
    decreases s.len(),
{
    if s.len() > 0 && in_class(s[0], k) {
        lemma_strip_start_suffix(s.skip(1), k);
    }
    assert(strip_start(s, k) =~= s.skip(s.len() - strip_start(s, k).len()));
}

proof fn lemma_strip_end_prefix(s: Seq<char>, k: CharClass)
    ensures
        strip_end(s, k).len() <= s.len(),
        strip_end(s, k) == s.take(strip_end(s, k).len() as int),
        strip_end(s, k).len() > 0 ==> !in_class(strip_end(s, k).last(), k),
    decreases s.len(),
{
    if s.len() > 0 && in_class(s.last(), k) {
        lemma_strip_end_prefix(s.drop_last(), k);
    }
    assert(strip_end(s, k) =~= s.take(strip_end(s, k).len() as int));
}

/// What is left by trimming begins and ends with something else than white
/// space, holds characters of the text only, and is not changed by trimming
/// again.
pub proof fn lemma_trimmed(s: Seq<char>)
    ensures
        trimmed(s).len() > 0 ==> !is_space(trimmed(s)[0]) && !is_space(trimmed(s).last()),
        forall|c: char| trimmed(s).contains(c) ==> s.contains(c),
        trimmed(trimmed(s)) == trimmed(s),
{
    let u = strip_start(s, CharClass::Space);
    let t = trimmed(s);
    lemma_strip_start_suffix(s, CharClass::Space);
    lemma_strip_start_stops(s, CharClass::Space);
    lemma_strip_end_prefix(u, CharClass::Space);
    assert forall|c: char| t.contains(c) implies s.contains(c) by {
        let i = choose|i: int| 0 <= i < t.len() && t[i] == c;
        assert(u[i] == c);
        assert(s[s.len() - u.len() + i] == c);
    }
    if t.len() > 0 {
        assert(t[0] == u[0]);
    }
}

// --------------------------------------------------------------- Splitting

/// The number of characters of `s` before its first white space.
pub open spec fn word_len(s: Seq<char>) -> nat
    decreases s.len(),
{
    if s.len() == 0 || is_space(s[0]) {
        0
    } else {
        1 + word_len(s.skip(1))
    }
}

proof fn lemma_word_len(s: Seq<char>)
    ensures
        word_len(s) <= s.len(),
    decreases s.len(),
{
    if s.len() > 0 && !is_space(s[0]) {
        lemma_word_len(s.skip(1));
    }
}

/// The words of `s`: its maximal runs without white space, in order.
pub open spec fn words(s: Seq<char>) -> Seq<Seq<char>>
    decreases s.len(),
    via words_decreases
{
    let t = strip_start(s, CharClass::Space);
    if t.len() == 0 {
        seq![]
    } else {
        seq![t.take(word_len(t) as int)] + words(t.skip(word_len(t) as int))
    }
}

#[via_fn]
proof fn words_decreases(s: Seq<char>) {
    let t = strip_start(s, CharClass::Space);
    lemma_strip_start_len(s, CharClass::Space);
    lemma_word_len(t);
    lemma_strip_start_stops(s, CharClass::Space);
}

proof fn lemma_strip_start_stops(s: Seq<char>, k: CharClass)
    ensures
        strip_start(s, k).len() > 0 ==> !in_class(strip_start(s, k)[0], k),
    decreases s.len(),
{
    if s.len() > 0 && in_class(s[0], k) {
        lemma_strip_start_stops(s.skip(1), k);
    }
}

/// Splits a text into its words.
pub fn split_words(s: &str) -> (r: Vec<String>)
    ensures
        r.deep_view() == words(s@),
{
    let cs = chars_of(s);
    let n = cs.len();
    let mut out: Vec<String> = Vec::new();
    let mut i: usize = 0;
    assert(cs@.skip(0) =~= cs@);
    assert(out.deep_view() + words(cs@) =~= words(cs@));
    while i < n
        invariant
            n == cs@.len(),
            i <= n,
            words(cs@) == out.deep_view() + words(cs@.skip(i as int)),
        decreases n - i,
    {
        let ghost start = i;
        while i < n && is_space_char(cs[i])
            invariant
                n == cs@.len(),
                start <= i <= n,
                strip_start(cs@.skip(start as int), CharClass::Space) == strip_start(
                    cs@.skip(i as int),
                    CharClass::Space,
                ),
            decreases n - i,
        {
            assert(cs@.skip(i as int).skip(1) =~= cs@.skip(i + 1));
            i += 1;
        }
        let ghost t = cs@.skip(i as int);
        if i == n {
            assert(words(cs@.skip(start as int)) =~= seq![]);
            assert(words(cs@.skip(i as int)) =~= seq![]);
        } else {
            let mut j: usize = i;
            assert(t.skip(0) =~= t);
            while j < n && !is_space_char(cs[j])
                invariant
                    n == cs@.len(),
                    t == cs@.skip(i as int),
                    i <= j <= n,
                    word_len(t) == (j - i) + word_len(t.skip(j - i)),
                decreases n - j,
            {
                assert(t.skip(j - i).skip(1) =~= t.skip(j - i + 1));
                j += 1;
            }
            let w = string_of(vstd::slice::slice_subrange(cs.as_slice(), i, j));
            assert(w@ =~= t.take(j - i));
            assert(t.skip(j - i) =~= cs@.skip(j as int));
            let ghost before = out;
            out.push(w);
            proof {
                lemma_pushed_view(before, out, w);
                assert(before.deep_view() + (seq![w@] + words(cs@.skip(j as int)))
                    =~= out.deep_view() + words(cs@.skip(j as int)));
            }
            i = j;
        }
    }
    assert(cs@.skip(n as int) =~= Seq::<char>::empty());
    assert(words(cs@.skip(n as int)) =~= seq![]);
    assert(out.deep_view() =~= words(s@));
    out
}

/// The position of the first `c` in `s`, or the length of `s`.
pub open spec fn find_char(s: Seq<char>, c: char) -> nat
    decreases s.len(),
{
    if s.len() == 0 || s[0] == c {
        0
    } else {
        1 + find_char(s.skip(1), c)
    }
}

/// `find_char` gives the first position of `c`.
pub proof fn lemma_find_char(s: Seq<char>, c: char)
    ensures
        find_char(s, c) <= s.len(),
        find_char(s, c) < s.len() ==> s[find_char(s, c) as int] == c,
        forall|j: int| 0 <= j < find_char(s, c) ==> s[j] != c,
    decreases s.len(),
{
    if s.len() > 0 && s[0] != c {
        let r = s.skip(1);
        lemma_find_char(r, c);
        assert forall|j: int| 0 <= j < find_char(s, c) implies s[j] != c by {
            if j > 0 {
                assert(s[j] == r[j - 1]);
            }
        }
    }
}

/// `find_char` is determined by being the first position of `c`.
pub proof fn lemma_find_char_is(s: Seq<char>, c: char, i: int)
    requires
        0 <= i <= s.len(),
        i < s.len() ==> s[i] == c,
        forall|j: int| 0 <= j < i ==> s[j] != c,
    ensures
        find_char(s, c) == i,
{
    lemma_find_char(s, c);
    let f = find_char(s, c) as int;
    if f < i {
        assert(s[f] != c);
    }
    if i < f {
        assert(s[i] != c);
    }
}

/// The pieces of `s` between the separators `c`: one more than there are
/// separators.
pub open spec fn fields(s: Seq<char>, c: char) -> Seq<Seq<char>>
    decreases s.len(),
{
    let i = find_char(s, c) as int;
    if i >= s.len() {
        seq![s]
    } else {
        seq![s.take(i)] + fields(s.skip(i + 1), c)
    }
}

/// The index of the first `c` at or after `from`, or the length.
fn index_from(cs: &Vec<char>, from: usize, c: char) -> (r: usize)
    requires
        from <= cs@.len(),
    ensures
        from <= r <= cs@.len(),
        r - from == find_char(cs@.skip(from as int), c),
{
    let n = cs.len();
    let mut j: usize = from;
    while j < n && cs[j] != c
        invariant
            n == cs@.len(),
            from <= j <= n,
            forall|k: int| from <= k < j ==> cs@[k] != c,
        decreases n - j,
    {
        j += 1;
    }
    proof {
        lemma_find_char_is(cs@.skip(from as int), c, j - from);
    }
    j
}

/// Splits a text at every `c`.
pub fn split_on(s: &str, c: char) -> (r: Vec<String>)
    ensures
        r.deep_view() == fields(s@, c),
        r@.len() >= 1,
{
    let cs = chars_of(s);
    let n = cs.len();
    let mut out: Vec<String> = Vec::new();
    let mut i: usize = 0;
    assert(cs@.skip(0) =~= cs@);
    assert(out.deep_view() + fields(cs@, c) =~= fields(cs@, c));
    loop
        invariant
            n == cs@.len(),
            i <= n,
            cs@ == s@,
            fields(cs@, c) == out.deep_view() + fields(cs@.skip(i as int), c),
        decreases n - i,
    {
        let j = index_from(&cs, i, c);
        let ghost t = cs@.skip(i as int);
        let piece = string_of(vstd::slice::slice_subrange(cs.as_slice(), i, j));
        assert(piece@ =~= t.take(j - i));
        let ghost before = out;
        out.push(piece);
        proof {
            lemma_pushed_view(before, out, piece);
        }
        if j == n {
            assert(piece@ =~= t);
            assert(out.deep_view() =~= fields(s@, c));
            return out;
        }
        assert(t.skip(j - i + 1) =~= cs@.skip(j + 1));
        assert(before.deep_view() + (seq![piece@] + fields(cs@.skip(j + 1), c)) =~= out.deep_view()
            + fields(cs@.skip(j + 1), c));
        i = j + 1;
    }
}

/// A field without separators, followed by a separator, is split off.
pub proof fn lemma_fields_cons(first: Seq<char>, rest: Seq<char>, c: char)
    requires
        !first.contains(c),
    ensures
        fields(first.push(c) + rest, c) == seq![first] + fields(rest, c),
{
    let s = first.push(c) + rest;
    let i = first.len() as int;
    assert forall|j: int| 0 <= j < i implies s[j] != c by {
        assert(first[j] == s[j]);
    }
    lemma_find_char_is(s, c, i);
    assert(s.take(i) =~= first);
    assert(s.skip(i + 1) =~= rest);
}

/// A text without separators is a single field.
pub proof fn lemma_fields_single(s: Seq<char>, c: char)
    requires
        !s.contains(c),
    ensures
        fields(s, c) == seq![s],
{
    assert forall|j: int| 0 <= j < s.len() implies s[j] != c by {
        assert(s.contains(s[j]));
    }
    lemma_find_char_is(s, c, s.len() as int);
}

/// A last field without separators is split off.
pub proof fn lemma_fields_snoc(s: Seq<char>, last: Seq<char>, c: char)
    requires
        !last.contains(c),
    ensures
        fields(s.push(c) + last, c) == fields(s, c).push(last),
    decreases s.len(),
{
    let i = find_char(s, c) as int;
    lemma_find_char(s, c);
    if i >= s.len() {
        lemma_fields_cons(s, last, c);
        lemma_fields_single(last, c);
        assert(seq![s] + seq![last] =~= seq![s].push(last));
    } else {
        let first = s.take(i);
        let rest = s.skip(i + 1);
        assert(s.push(c) + last =~= first.push(c) + (rest.push(c) + last));
        lemma_fields_cons(first, rest.push(c) + last, c);
        lemma_fields_snoc(rest, last, c);
        assert(seq![first] + fields(rest, c).push(last) =~= (seq![first] + fields(rest, c)).push(
            last,
        ));
    }
}

/// Fields joined with their separator are split again into the same fields.
pub proof fn lemma_fields_joined(parts: Seq<Seq<char>>, c: char)
    requires
        parts.len() > 0,
        forall|i: int| 0 <= i < parts.len() ==> !(#[trigger] parts[i]).contains(c),
    ensures
        fields(joined(parts, seq![c]), c) == parts,
    decreases parts.len(),
{
    if parts.len() == 1 {
        lemma_fields_single(parts[0], c);
        assert(seq![parts[0]] =~= parts);
    } else {
        let front = parts.drop_last();
        assert forall|i: int| 0 <= i < front.len() implies !(#[trigger] front[i]).contains(c) by {
            assert(front[i] == parts[i]);
        }
        lemma_fields_joined(front, c);
        lemma_fields_snoc(joined(front, seq![c]), parts.last(), c);
        assert(joined(parts, seq![c]) =~= joined(front, seq![c]).push(c) + parts.last());
        assert(front.push(parts.last()) =~= parts);
    }
}

/// A line without the carriage return of its line ending.
pub open spec fn without_cr(s: Seq<char>) -> Seq<char> {
    if s.len() > 0 && s.last() == '\r' {
        s.drop_last()
    } else {
        s
    }
}

/// The lines of `s`. A line ends with a line feed, which a carriage return
/// may precede; the last line need not be ended.
pub open spec fn lines_of(s: Seq<char>) -> Seq<Seq<char>>
    decreases s.len(),
{
    let i = find_char(s, '\n') as int;
    if s.len() == 0 {
        seq![]
    } else if i >= s.len() {
        seq![s]
    } else {
        seq![without_cr(s.take(i))] + lines_of(s.skip(i + 1))
    }
}

/// Splits a text into its lines.
pub fn split_lines(s: &str) -> (r: Vec<String>)
    ensures
        r.deep_view() == lines_of(s@),
{
    let cs = chars_of(s);
    let n = cs.len();
    let mut out: Vec<String> = Vec::new();
    let mut i: usize = 0;
    assert(cs@.skip(0) =~= cs@);
    assert(out.deep_view() + lines_of(cs@) =~= lines_of(cs@));
    while i < n
        invariant
            n == cs@.len(),
            i <= n,
            cs@ == s@,
            lines_of(cs@) == out.deep_view() + lines_of(cs@.skip(i as int)),
        decreases n - i,
    {
        let j = index_from(&cs, i, '\n');
        let ghost t = cs@.skip(i as int);
        let ghost before = out;
        if j == n {
            let line = string_of(vstd::slice::slice_subrange(cs.as_slice(), i, j));
            assert(line@ =~= t);
            out.push(line);
            proof {
                lemma_pushed_view(before, out, line);
                assert(cs@.skip(j as int) =~= Seq::<char>::empty());
                assert(lines_of(cs@) =~= out.deep_view() + lines_of(cs@.skip(j as int)));
            }
            i = j;
        } else {
            let end: usize = if j > i && cs[j - 1] == '\r' {
                j - 1
            } else {
                j
            };
            let line = string_of(vstd::slice::slice_subrange(cs.as_slice(), i, end));
            assert(line@ =~= without_cr(t.take(j - i)));
            assert(t.skip(j - i + 1) =~= cs@.skip(j + 1));
            out.push(line);
            proof {
                lemma_pushed_view(before, out, line);
                assert(before.deep_view() + (seq![line@] + lines_of(cs@.skip(j + 1)))
                    =~= out.deep_view() + lines_of(cs@.skip(j + 1)));
            }
            i = j + 1;
        }
    }
    assert(cs@.skip(n as int) =~= Seq::<char>::empty());
    assert(lines_of(cs@.skip(n as int)) =~= seq![]);
    assert(out.deep_view() =~= lines_of(s@));
    out
}

/// No line holds a line feed.
pub proof fn lemma_lines_hold_no_feed(s: Seq<char>)
    ensures
        forall|i: int| 0 <= i < lines_of(s).len() ==> !(#[trigger] lines_of(s)[i]).contains('\n'),
    decreases s.len(),
{
    lemma_find_char(s, '\n');
    let i = find_char(s, '\n') as int;
    if i < s.len() {
        lemma_lines_hold_no_feed(s.skip(i + 1));
        assert forall|k: int| 0 <= k < lines_of(s).len() implies !(#[trigger] lines_of(
            s,
        )[k]).contains('\n') by {
            if k > 0 {
                assert(lines_of(s)[k] == lines_of(s.skip(i + 1))[k - 1]);
            }
        }
    }
}

/// The lines of a text that does not end with a line feed are its fields
/// between line feeds, all but the last without their carriage returns.
proof fn lemma_lines_are_fields(s: Seq<char>)
    requires
        fields(s, '\n').last().len() > 0,
    ensures
        lines_of(s).len() == fields(s, '\n').len(),
        forall|i: int|
            0 <= i < lines_of(s).len() ==> #[trigger] lines_of(s)[i] == (if i < lines_of(s).len()
                - 1 {
                without_cr(fields(s, '\n')[i])
            } else {
                fields(s, '\n')[i]
            }),
    decreases s.len(),
{
    let i = find_char(s, '\n') as int;
    if i < s.len() {
        let rest = s.skip(i + 1);
        lemma_some_field(rest, '\n');
        assert(fields(s, '\n').last() == fields(rest, '\n').last());
        lemma_lines_are_fields(rest);
        assert forall|k: int| 0 <= k < lines_of(s).len() implies #[trigger] lines_of(s)[k] == (if k
            < lines_of(s).len() - 1 {
            without_cr(fields(s, '\n')[k])
        } else {
            fields(s, '\n')[k]
        }) by {
            if k > 0 {
                assert(lines_of(s)[k] == lines_of(rest)[k - 1]);
                assert(fields(s, '\n')[k] == fields(rest, '\n')[k - 1]);
            }
        }
    }
}

proof fn lemma_some_field(s: Seq<char>, c: char)
    ensures
        fields(s, c).len() > 0,
    decreases s.len(),
{
}

/// Texts that could stand on lines of their own are the lines of the text that
/// joins them with line feeds.
pub proof fn lemma_lines_joined(parts: Seq<Seq<char>>)
    requires
        forall|i: int|
            0 <= i < parts.len() ==> (#[trigger] parts[i]).len() > 0 && !parts[i].contains('\n')
                && parts[i].last() != '\r',
    ensures
        lines_of(joined(parts, seq!['\n'])) == parts,
{
    let s = joined(parts, seq!['\n']);
    if parts.len() > 0 {
        lemma_fields_joined(parts, '\n');
        assert(parts.last() == parts[parts.len() - 1]);
        lemma_lines_are_fields(s);
    }
    assert(lines_of(s) =~= parts);
}

/// A list without repetitions consists of first occurrences.
pub proof fn lemma_distinct_items(items: Seq<Seq<char>>)
    requires
        items.no_duplicates(),
    ensures
        first_occurrences(items) == items,
    decreases items.len(),
{
    if items.len() > 0 {
        let before = items.drop_last();
        lemma_distinct_items(before);
        if before.contains(items.last()) {
            let i = choose|i: int| 0 <= i < before.len() && before[i] == items.last();
            assert(items[i] == items[items.len() - 1]);
        }
        assert(before.push(items.last()) =~= items);
    }
}

/// A text of white space only has no words.
pub proof fn lemma_space_words(s: Seq<char>)
    requires
        all_space(s),
    ensures
        words(s).len() == 0,
{
    lemma_space_stripped(s);
}

/// The lines of a text of white space only are white space only.
pub proof fn lemma_space_lines(s: Seq<char>)
    requires
        all_space(s),
    ensures
        forall|i: int| 0 <= i < lines_of(s).len() ==> all_space(#[trigger] lines_of(s)[i]),
    decreases s.len(),
{
    lemma_find_char(s, '\n');
    let i = find_char(s, '\n') as int;
    if i < s.len() {
        let rest = s.skip(i + 1);
        lemma_space_lines(rest);
        let first = without_cr(s.take(i));
        assert(all_space(first));
        assert forall|k: int| 0 <= k < lines_of(s).len() implies all_space(
            #[trigger] lines_of(s)[k],
        ) by {
            if k == 0 {
                assert(lines_of(s)[0] == first);
            } else {
                assert(lines_of(s)[k] == lines_of(rest)[k - 1]);
            }
        }
    }
}

// ----------------------------------------------------- Joining and searching

/// The parts one after the other, with `sep` between them.
pub open spec fn joined(parts: Seq<Seq<char>>, sep: Seq<char>) -> Seq<char>
    decreases parts.len(),
{
    if parts.len() == 0 {
        seq![]
    } else if parts.len() == 1 {
        parts[0]
    } else {
        joined(parts.drop_last(), sep) + sep + parts.last()
    }
}

/// Joins the parts with `sep` between them.
pub fn join(parts: &Vec<String>, sep: &str) -> (r: String)
    ensures
        r@ == joined(parts.deep_view(), sep@),
{
    let mut out = String::new();
    let mut i: usize = 0;
    assert(parts.deep_view().take(0) =~= seq![]);
    while i < parts.len()
        invariant
            i <= parts@.len(),
            out@ == joined(parts.deep_view().take(i as int), sep@),
        decreases parts@.len() - i,
    {
        let ghost done = parts.deep_view().take(i + 1);
        assert(done.drop_last() =~= parts.deep_view().take(i as int));
        assert(done.last() == parts@[i as int]@);
        if i > 0 {
            out.append(sep);
        }
        out.append(parts[i].as_str());
        assert(i == 0 ==> out@ =~= parts@[0]@);
        i += 1;
    }
    assert(parts.deep_view().take(i as int) =~= parts.deep_view());
    out
}

/// Whether `t` stands in `s` at position `i`.
pub open spec fn text_at(s: Seq<char>, t: Seq<char>, i: int) -> bool {
    &&& 0 <= i
    &&& i + t.len() <= s.len()
    &&& s.subrange(i, i + t.len()) == t
}

/// Whether `t` occurs in `s`.
pub open spec fn contains_text(s: Seq<char>, t: Seq<char>) -> bool {
    exists|i: int| #[trigger] text_at(s, t, i)
}

/// Whether `s` begins with `t`.
pub open spec fn starts_with_text(s: Seq<char>, t: Seq<char>) -> bool {
    text_at(s, t, 0)
}

fn matches_at(s: &Vec<char>, t: &Vec<char>, i: usize) -> (r: bool)
    ensures
        r == text_at(s@, t@, i as int),
{
    if i > s.len() || t.len() > s.len() - i {
        return false;
    }
    let mut k: usize = 0;
    while k < t.len()
        invariant
            k <= t@.len(),
            i + t.len() <= s.len(),
            forall|j: int| 0 <= j < k ==> s@[i + j] == t@[j],
        decreases t@.len() - k,
    {
        if s[i + k] != t[k] {
            assert(s@.subrange(i as int, i + t@.len())[k as int] != t@[k as int]);
            return false;
        }
        k += 1;
    }
    assert(s@.subrange(i as int, i + t@.len()) =~= t@);
    true
}

/// Tests whether `t` occurs in `s`.
pub fn contains(s: &str, t: &str) -> (r: bool)
    ensures
        r == contains_text(s@, t@),
{
    let a = chars_of(s);
    let b = chars_of(t);
    if b.len() > a.len() {
        return false;
    }
    let last: usize = a.len() - b.len();
    let mut i: usize = 0;
    while i <= last
        invariant
            a@ == s@,
            b@ == t@,
            last == a@.len() - b@.len(),
            i <= last + 1,
            forall|j: int| 0 <= j < i ==> !text_at(s@, t@, j),
        decreases last + 1 - i,
    {
        if matches_at(&a, &b, i) {
            return true;
        }
        if i == last {
            return false;
        }
        i += 1;
    }
    false
}

/// Tests whether `s` begins with `t`.
pub fn starts_with(s: &str, t: &str) -> (r: bool)
    ensures
        r == starts_with_text(s@, t@),
{
    matches_at(&chars_of(s), &chars_of(t), 0)
}

/// What follows the prefix `t` in `s`, if `s` begins with it.
pub fn strip_prefix(s: &str, t: &str) -> (r: Option<String>)
    ensures
        r matches Some(rest) ==> starts_with_text(s@, t@) && rest@ == s@.skip(t@.len() as int),
        r is None ==> !starts_with_text(s@, t@),
{
    let a = chars_of(s);
    let b = chars_of(t);
    if matches_at(&a, &b, 0) {
        let rest = string_of(vstd::slice::slice_subrange(a.as_slice(), b.len(), a.len()));
        assert(rest@ =~= s@.skip(t@.len() as int));
        Some(rest)
    } else {
        None
    }
}

/// Tests whether the character `c` occurs in `s`.
pub fn contains_char(s: &str, c: char) -> (r: bool)
    ensures
        r == s@.contains(c),
{
    let cs = chars_of(s);
    let mut i: usize = 0;
    while i < cs.len()
        invariant
            cs@ == s@,
            i <= cs@.len(),
            forall|j: int| 0 <= j < i ==> cs@[j] != c,
        decreases cs@.len() - i,
    {
        if cs[i] == c {
            return true;
        }
        i += 1;
    }
    false
}

/// The position of the first token that equals `key`, or the number of tokens.
pub open spec fn token_position(tokens: Seq<Seq<char>>, key: Seq<char>) -> nat
    decreases tokens.len(),
{
    if tokens.len() == 0 || tokens[0] == key {
        0
    } else {
        1 + token_position(tokens.skip(1), key)
    }
}

/// The token right after the first one that equals `key`.
pub open spec fn token_following(tokens: Seq<Seq<char>>, key: Seq<char>) -> Option<Seq<char>> {
    let i = token_position(tokens, key) as int;
    if i + 1 < tokens.len() {
        Some(tokens[i + 1])
    } else {
        None
    }
}

/// `token_position` is determined by being the first occurrence.
pub proof fn lemma_token_position(tokens: Seq<Seq<char>>, key: Seq<char>, i: int)
    requires
        0 <= i <= tokens.len(),
        i < tokens.len() ==> tokens[i] == key,
        forall|j: int| 0 <= j < i ==> #[trigger] tokens[j] != key,
    ensures
        token_position(tokens, key) == i,
    decreases tokens.len(),
{
    if tokens.len() > 0 && i > 0 {
        let r = tokens.skip(1);
        assert(tokens[0] != key);
        assert forall|j: int| 0 <= j < i - 1 implies #[trigger] r[j] != key by {
            assert(tokens[j + 1] != key);
        }
        lemma_token_position(r, key, i - 1);
    }
}

/// Whether `items` holds the text `t`.
pub fn is_listed(items: &Vec<String>, t: &str) -> (r: bool)
    ensures
        r == items.deep_view().contains(t@),
{
    let ghost iv = items.deep_view();
    let mut i: usize = 0;
    while i < items.len()
        invariant
            iv == items.deep_view(),
            i <= items@.len(),
            forall|j: int| 0 <= j < i ==> #[trigger] iv[j] != t@,
        decreases items@.len() - i,
    {
        if same(items[i].as_str(), t) {
            assert(iv[i as int] == t@);
            return true;
        }
        i += 1;
    }
    false
}

/// `items` with `t` at the end, unless it is there already.
pub open spec fn with_item(items: Seq<Seq<char>>, t: Seq<char>) -> Seq<Seq<char>> {
    if items.contains(t) {
        items
    } else {
        items.push(t)
    }
}

/// The first occurrence of each item, in order.
pub open spec fn first_occurrences(items: Seq<Seq<char>>) -> Seq<Seq<char>>
    decreases items.len(),
{
    if items.len() == 0 {
        seq![]
    } else {
        with_item(first_occurrences(items.drop_last()), items.last())
    }
}

/// Adds `t` to the end of `items`, unless it is there already.
pub fn push_unique(items: &mut Vec<String>, t: String)
    ensures
        final(items).deep_view() == with_item(old(items).deep_view(), t@),
{
    if !is_listed(items, t.as_str()) {
        let ghost before = *items;
        items.push(t);
        proof {
            lemma_pushed_view(before, *items, t);
        }
    }
}

/// What a list holds after an item was added at its end.
pub proof fn lemma_push_contains(s: Seq<Seq<char>>, a: Seq<char>, x: Seq<char>)
    ensures
        s.push(a).contains(x) <==> s.contains(x) || x == a,
{
    if s.contains(x) {
        let i = choose|i: int| 0 <= i < s.len() && s[i] == x;
        assert(s.push(a)[i] == x);
    }
    if x == a {
        assert(s.push(a)[s.len() as int] == x);
    }
}

/// The first occurrences are the distinct items.
pub proof fn lemma_first_occurrences(items: Seq<Seq<char>>)
    ensures
        first_occurrences(items).no_duplicates(),
        forall|x: Seq<char>| #[trigger]
            first_occurrences(items).contains(x) <==> items.contains(x),
    decreases items.len(),
{
    if items.len() > 0 {
        let before = items.drop_last();
        lemma_first_occurrences(before);
        assert(items =~= before.push(items.last()));
        assert forall|x: Seq<char>| #[trigger]
            first_occurrences(items).contains(x) <==> items.contains(x) by {
            lemma_push_contains(before, items.last(), x);
            lemma_push_contains(first_occurrences(before), items.last(), x);
        }
    }
}

/// A copy of a list of texts.
pub fn clone_list(items: &Vec<String>) -> (r: Vec<String>)
    ensures
        r.deep_view() == items.deep_view(),
{
    let mut out: Vec<String> = Vec::new();
    let mut i: usize = 0;
    while i < items.len()
        invariant
            i <= items@.len(),
            out@.len() == i,
            forall|j: int| 0 <= j < i ==> (#[trigger] out@[j])@ == items@[j]@,
        decreases items@.len() - i,
    {
        out.push(items[i].clone());
        i += 1;
    }
    assert(out.deep_view() =~= items.deep_view());
    out
}

/// A copy of an optional text.
pub fn clone_option(item: &Option<String>) -> (r: Option<String>)
    ensures
        r.deep_view() == item.deep_view(),
{
    match item {
        Some(t) => Some(t.clone()),
        None => None,
    }
}

/// `s` in double quotes, with escapes.
pub uninterp spec fn quoted(s: Seq<char>) -> Seq<char>;

/// `str`'s `Debug` formatting: the text in double quotes, with escapes. The
/// result depends on the text alone; which characters are escaped is left
/// unsaid.
#[verifier::external_body]
pub(crate) fn quote(s: &str) -> (r: String)
    ensures
        r@ == quoted(s@),
{
    format!("{s:?}")
}

/// `s` in lowercase letters.
pub uninterp spec fn lowercase(s: Seq<char>) -> Seq<char>;

/// `str::to_lowercase`: the result depends on the text alone; in ASCII texts
/// the letters `A` to `Z` change and nothing else does.
pub assume_specification[ str::to_lowercase ](s: &str) -> (r: String)
    ensures
        r@ == lowercase(s@),
        (forall|i: int| 0 <= i < s@.len() ==> #[trigger] s@[i] <= '\u{7f}') ==> r@ == lowered(s@),
;

// ------------------------------------------------------------ Substitutions

/// `s` with every `from` replaced by `to`.
pub open spec fn replaced(s: Seq<char>, from: char, to: char) -> Seq<char> {
    Seq::new(s.len(), |i: int| if s[i] == from { to } else { s[i] })
}

/// Replaces every `from` by `to`.
pub fn replace_char(s: &str, from: char, to: char) -> (r: String)
    ensures
        r@ == replaced(s@, from, to),
{
    let cs = chars_of(s);
    let mut out = String::new();
    let mut i: usize = 0;
    while i < cs.len()
        invariant
            cs@ == s@,
            i <= cs@.len(),
            out@ == replaced(s@, from, to).take(i as int),
        decreases cs@.len() - i,
    {
        let c: char = if cs[i] == from {
            to
        } else {
            cs[i]
        };
        out.push(c);
        assert(out@ =~= replaced(s@, from, to).take(i + 1));
        i += 1;
    }
    assert(replaced(s@, from, to).take(i as int) =~= replaced(s@, from, to));
    out
}

/// The lowercase of an ASCII letter; any other character is itself.
pub open spec fn lower_char(c: char) -> char {
    if 'A' <= c <= 'Z' {
        (c as u32 + 32) as char
    } else {
        c
    }
}

/// `s` with its ASCII letters in lowercase.
pub open spec fn lowered(s: Seq<char>) -> Seq<char> {
    Seq::new(s.len(), |i: int| lower_char(s[i]))
}

/// Puts one ASCII letter in lowercase.
pub fn to_lower_char(c: char) -> (r: char)
    ensures
        r == lower_char(c),
{
    if 'A' <= c && c <= 'Z' {
        ((c as u8) + 32) as char
    } else {
        c
    }
}

/// Puts the ASCII letters of a text in lowercase.
pub fn to_lower(s: &str) -> (r: String)
    ensures
        r@ == lowered(s@),
{
    let cs = chars_of(s);
    let mut out = String::new();
    let mut i: usize = 0;
    while i < cs.len()
        invariant
            cs@ == s@,
            i <= cs@.len(),
            out@ == lowered(s@).take(i as int),
        decreases cs@.len() - i,
    {
        out.push(to_lower_char(cs[i]));
        assert(out@ =~= lowered(s@).take(i + 1));
        i += 1;
    }
    assert(lowered(s@).take(i as int) =~= lowered(s@));
    out
}

/// `s` followed by enough spaces to make `width` characters.
pub open spec fn padded(s: Seq<char>, width: nat) -> Seq<char> {
    if s.len() >= width {
        s
    } else {
        s + Seq::new((width - s.len()) as nat, |i: int| ' ')
    }
}

/// Pads a text on the right with spaces up to `width` characters.
pub fn pad_right(s: &str, width: usize) -> (r: String)
    ensures
        r@ == padded(s@, width as nat),
{
    let mut out = s.to_owned();
    let mut len: usize = chars_of(s).len();
    while len < width
        invariant
            s@.len() <= len,
            out@.len() == len,
            len <= width || len == s@.len(),
            out@ =~= s@ + Seq::new((len - s@.len()) as nat, |i: int| ' '),
        decreases width - len,
    {
        out.push(' ');
        len += 1;
    }
    assert(out@ =~= padded(s@, width as nat));
    out
}

// ------------------------------------------------------------------ Numbers

/// Whether `c` is an ASCII digit.
pub open spec fn is_digit(c: char) -> bool {
    '0' <= c <= '9'
}

/// Whether every character of `s` is an ASCII digit.
pub open spec fn all_digits(s: Seq<char>) -> bool {
    forall|i: int| 0 <= i < s.len() ==> is_digit(#[trigger] s[i])
}

/// The digit `d` as a character.
pub open spec fn digit_char(d: nat) -> char {
    (48 + d) as char
}

/// `n` in decimal, without leading zeros.
pub open spec fn decimal_text(n: nat) -> Seq<char>
    decreases n,
{
    if n < 10 {
        seq![digit_char(n)]
    } else {
        decimal_text(n / 10).push(digit_char(n % 10))
    }
}

/// The number that a sequence of decimal digits denotes.
pub open spec fn decimal_value(s: Seq<char>) -> nat
    decreases s.len(),
{
    if s.len() == 0 {
        0
    } else {
        decimal_value(s.drop_last()) * 10 + (s.last() as nat - 48) as nat
    }
}

/// Writes a number in decimal.
pub fn decimal(n: u128) -> (r: String)
    ensures
        r@ == decimal_text(n as nat),
    decreases n,
{
    if n < 10 {
        let mut out = String::new();
        out.push(((n as u8) + 48) as char);
        assert(out@ =~= decimal_text(n as nat));
        out
    } else {
        let mut out = decimal(n / 10);
        out.push((((n % 10) as u8) + 48) as char);
        out
    }
}

/// A number is written in digits only.
pub proof fn lemma_decimal_chars(n: nat)
    ensures
        all_digits(decimal_text(n)),
    decreases n,
{
    if n >= 10 {
        lemma_decimal_chars(n / 10);
    }
}

/// A number in decimal consists of digits and denotes the number.
pub proof fn lemma_decimal_round_trip(n: nat)
    ensures
        all_digits(decimal_text(n)),
        decimal_text(n).len() >= 1,
        decimal_value(decimal_text(n)) == n,
        decimal_text(n).len() > 1 ==> decimal_text(n)[0] != '0',
        n > 0 ==> decimal_text(n)[0] != '0',
    decreases n,
{
    if n < 10 {
        assert(decimal_text(n).drop_last() =~= seq![]);
        assert(decimal_value(seq![]) == 0);
    } else {
        lemma_decimal_round_trip(n / 10);
        assert(decimal_text(n).drop_last() =~= decimal_text(n / 10));
    }
}

/// The number that an unsigned decimal numeral denotes: an optional plus sign
/// and at least one digit.
pub open spec fn unsigned_value(s: Seq<char>) -> Option<nat> {
    let digits = if s.len() > 0 && s[0] == '+' {
        s.skip(1)
    } else {
        s
    };
    if digits.len() > 0 && all_digits(digits) {
        Some(decimal_value(digits))
    } else {
        None
    }
}

proof fn lemma_decimal_value_grows(s: Seq<char>, n: int)
    requires
        0 <= n <= s.len(),
    ensures
        decimal_value(s.take(n)) <= decimal_value(s),
    decreases s.len() - n,
{
    if n == s.len() {
        assert(s.take(n) =~= s);
    } else {
        lemma_decimal_value_grows(s, n + 1);
        assert(s.take(n + 1).drop_last() =~= s.take(n));
    }
}

/// Reads an unsigned numeral that must fit in eight bits.
pub fn parse_u8(s: &str) -> (r: Option<u8>)
    ensures
        r matches Some(v) ==> unsigned_value(s@) == Some(v as nat),
        r is None ==> (unsigned_value(s@) matches Some(v) ==> v > 255),
{
    let cs = chars_of(s);
    let start: usize = if cs.len() > 0 && cs[0] == '+' {
        1
    } else {
        0
    };
    let ghost digits = cs@.skip(start as int);
    assert(start == 0 ==> digits =~= cs@);
    if start == cs.len() {
        return None;
    }
    let mut value: u32 = 0;
    let mut i: usize = start;
    assert(digits.take(0) =~= seq![]);
    while i < cs.len()
        invariant
            start <= i <= cs@.len(),
            start <= 1,
            digits == cs@.skip(start as int),
            unsigned_value(s@) == (if digits.len() > 0 && all_digits(digits) {
                Some(decimal_value(digits))
            } else {
                None
            }),
            value <= 255,
            forall|j: int| 0 <= j < i - start ==> is_digit(#[trigger] digits[j]),
            value == decimal_value(digits.take(i - start)),
        decreases cs@.len() - i,
    {
        let c = cs[i];
        assert(c == digits[i - start]);
        if !('0' <= c && c <= '9') {
            return None;
        }
        let ghost next = digits.take(i - start + 1);
        assert(next.drop_last() =~= digits.take(i - start));
        value = value * 10 + ((c as u32) - 48);
        if value > 255 {
            proof {
                lemma_decimal_value_grows(digits, i - start + 1);
            }
            return None;
        }
        i += 1;
    }
    assert(digits.take(i - start) =~= digits);
    Some(value as u8)
}

/// The value of a hexadecimal digit of either case.
pub open spec fn hex_digit(c: char) -> Option<nat> {
    if '0' <= c <= '9' {
        Some((c as nat - 48) as nat)
    } else if 'a' <= c <= 'f' {
        Some((c as nat - 87) as nat)
    } else if 'A' <= c <= 'F' {
        Some((c as nat - 55) as nat)
    } else {
        None
    }
}

/// Reads a hexadecimal digit of either case.
pub fn parse_hex_digit(c: char) -> (r: Option<u8>)
    ensures
        r matches Some(v) ==> hex_digit(c) == Some(v as nat) && v < 16,
        r is None ==> hex_digit(c) is None,
{
    if '0' <= c && c <= '9' {
        Some((c as u8) - 48)
    } else if 'a' <= c && c <= 'f' {
        Some((c as u8) - 87)
    } else if 'A' <= c && c <= 'F' {
        Some((c as u8) - 55)
    } else {
        None
    }
}

// ------------------------------------------------------------- What texts are

/// Among the ASCII characters, white space is the blank and the five controls
/// from the tab to the carriage return; beyond them it is the next line, the
/// blanks of Unicode and its two separators.
pub proof fn law_white_space(c: char)
    ensures
        c < '\u{80}' ==> (is_space(c) <==> c == ' ' || c == '\t' || c == '\n' || c == '\u{b}' || c
            == '\u{c}' || c == '\r'),
        c == '\u{85}' || c == '\u{a0}' || c == '\u{1680}' || c == '\u{2000}' || c == '\u{200a}' || c
            == '\u{2028}' || c == '\u{2029}' || c == '\u{202f}' || c == '\u{205f}' || c
            == '\u{3000}' ==> is_space(c),
        '\u{200b}' <= c < '\u{2028}' || '\u{3000}' < c ==> !is_space(c),
{
}

proof fn lemma_strip_start_of(a: Seq<char>, s: Seq<char>, k: CharClass)
    requires
        forall|i: int| 0 <= i < a.len() ==> in_class(#[trigger] a[i], k),
        s.len() == 0 || !in_class(s[0], k),
    ensures
        strip_start(a + s, k) == s,
    decreases a.len(),
{
    if a.len() == 0 {
        assert(a + s =~= s);
    } else {
        assert((a + s)[0] == a[0]);
        assert((a + s).skip(1) =~= a.skip(1) + s);
        assert forall|i: int| 0 <= i < a.skip(1).len() implies in_class(
            #[trigger] a.skip(1)[i],
            k,
        ) by {
            assert(a.skip(1)[i] == a[i + 1]);
        }
        lemma_strip_start_of(a.skip(1), s, k);
    }
}

proof fn lemma_strip_end_of(s: Seq<char>, b: Seq<char>, k: CharClass)
    requires
        forall|i: int| 0 <= i < b.len() ==> in_class(#[trigger] b[i], k),
        s.len() == 0 || !in_class(s.last(), k),
    ensures
        strip_end(s + b, k) == s,
    decreases b.len(),
{
    if b.len() == 0 {
        assert(s + b =~= s);
    } else {
        assert((s + b).last() == b[b.len() - 1]);
        assert((s + b).drop_last() =~= s + b.drop_last());
        assert forall|i: int| 0 <= i < b.drop_last().len() implies in_class(
            #[trigger] b.drop_last()[i],
            k,
        ) by {
            assert(b.drop_last()[i] == b[i]);
        }
        lemma_strip_end_of(s, b.drop_last(), k);
    }
}

/// What is stripped from a text is what belongs to the class at its ends, and
/// nothing else: a text that neither begins nor ends in the class is what is
/// left of it with any characters of the class around it.
pub proof fn law_stripped(a: Seq<char>, s: Seq<char>, b: Seq<char>, k: CharClass)
    requires
        forall|i: int| 0 <= i < a.len() ==> in_class(#[trigger] a[i], k),
        forall|i: int| 0 <= i < b.len() ==> in_class(#[trigger] b[i], k),
        s.len() == 0 || !in_class(s[0], k) && !in_class(s.last(), k),
    ensures
        strip(a + s + b, k) == s,
        strip_end(s + b, k) == s,
        strip_start(a + s, k) == s,
{
    lemma_strip_start_of(a, s, k);
    lemma_strip_end_of(s, b, k);
    if s.len() == 0 {
        let none = Seq::<char>::empty();
        assert(a + s + b =~= (a + b) + none);
        assert forall|i: int| 0 <= i < (a + b).len() implies in_class(#[trigger] (a + b)[i], k) by {
            if i < a.len() {
                assert((a + b)[i] == a[i]);
            } else {
                assert((a + b)[i] == b[i - a.len()]);
            }
        }
        lemma_strip_start_of(a + b, none, k);
        assert(strip_end(none, k) =~= s);
    } else {
        assert(a + s + b =~= a + (s + b));
        assert((s + b)[0] == s[0]);
        lemma_strip_start_of(a, s + b, k);
    }
}

/// The characters of each class.
pub proof fn law_classes(c: char)
    ensures
        in_class(c, CharClass::Space) <==> is_space(c),
        in_class(c, CharClass::Parens) <==> "()"@.contains(c),
        in_class(c, CharClass::HopMarks) <==> "()[],"@.contains(c),
        in_class(c, CharClass::Colon) <==> ":"@.contains(c),
{
    reveal_strlit("()");
    reveal_strlit("()[],");
    reveal_strlit(":");
    let p = "()"@;
    assert(p[0] == '(' && p[1] == ')');
    let h = "()[],"@;
    assert(h[0] == '(' && h[1] == ')' && h[2] == '[' && h[3] == ']' && h[4] == ',');
    assert(":"@[0] == ':');
}

/// A text without the white space around it is that text trimmed.
pub proof fn law_trimmed(a: Seq<char>, s: Seq<char>, b: Seq<char>)
    requires
        all_space(a),
        all_space(b),
        s.len() == 0 || !is_space(s[0]) && !is_space(s.last()),
    ensures
        trimmed(a + s + b) == s,
{
    law_stripped(a, s, b, CharClass::Space);
}

/// A character that does not belong to the class stays where it is when the end
/// is stripped.
pub proof fn lemma_stripped_end_keeps(s: Seq<char>, k: CharClass, i: int)
    requires
        0 <= i < s.len(),
        !in_class(s[i], k),
    ensures
        i < strip_end(s, k).len() <= s.len(),
        strip_end(s, k)[i] == s[i],
    decreases s.len(),
{
    if in_class(s.last(), k) {
        assert(s.drop_last()[i] == s[i]);
        lemma_stripped_end_keeps(s.drop_last(), k, i);
    }
}

proof fn lemma_word_len_of(w: Seq<char>, rest: Seq<char>)
    requires
        forall|i: int| 0 <= i < w.len() ==> !is_space(#[trigger] w[i]),
        rest.len() == 0 || is_space(rest[0]),
    ensures
        word_len(w + rest) == w.len(),
    decreases w.len(),
{
    if w.len() == 0 {
        assert(w + rest =~= rest);
    } else {
        assert((w + rest)[0] == w[0]);
        assert((w + rest).skip(1) =~= w.skip(1) + rest);
        assert forall|i: int| 0 <= i < w.skip(1).len() implies !is_space(
            #[trigger] w.skip(1)[i],
        ) by {
            assert(w.skip(1)[i] == w[i + 1]);
        }
        lemma_word_len_of(w.skip(1), rest);
    }
}

/// A text that begins with a word has that word and the words of what follows
/// it.
pub proof fn law_first_word(w: Seq<char>, rest: Seq<char>)
    requires
        w.len() > 0,
        forall|i: int| 0 <= i < w.len() ==> !is_space(#[trigger] w[i]),
        rest.len() == 0 || is_space(rest[0]),
    ensures
        words(w + rest) == seq![w] + words(rest),
{
    let s = w + rest;
    assert(s[0] == w[0]);
    assert(strip_start(s, CharClass::Space) == s);
    lemma_word_len_of(w, rest);
    assert(s.take(w.len() as int) =~= w);
    assert(s.skip(w.len() as int) =~= rest);
}

/// White space in front of a text changes none of its words.
pub proof fn law_leading_space(a: Seq<char>, s: Seq<char>)
    requires
        all_space(a),
    ensures
        words(a + s) == words(s),
    decreases a.len(),
{
    if a.len() == 0 {
        assert(a + s =~= s);
    } else {
        assert((a + s)[0] == a[0]);
        assert((a + s).skip(1) =~= a.skip(1) + s);
        assert forall|i: int| 0 <= i < a.skip(1).len() implies is_space(
            #[trigger] a.skip(1)[i],
        ) by {
            assert(a.skip(1)[i] == a[i + 1]);
        }
        law_leading_space(a.skip(1), s);
        assert(strip_start(a + s, CharClass::Space) == strip_start(
            a.skip(1) + s,
            CharClass::Space,
        ));
    }
}

/// The first part comes first in the joined text, with the separator behind it.
pub proof fn law_joined_first(first: Seq<char>, rest: Seq<Seq<char>>, sep: Seq<char>)
    ensures
        joined(seq![first], sep) == first,
        rest.len() > 0 ==> joined(seq![first] + rest, sep) == first + sep + joined(rest, sep),
    decreases rest.len(),
{
    let all = seq![first] + rest;
    if rest.len() == 1 {
        assert(all.drop_last() =~= seq![first]);
        assert(all.last() == rest[0]);
        assert(joined(seq![first], sep) == first);
        assert(joined(rest, sep) == rest[0]);
        assert(joined(all, sep) =~= first + sep + joined(rest, sep));
    } else if rest.len() > 1 {
        assert(all.drop_last() =~= seq![first] + rest.drop_last());
        assert(all.last() == rest.last());
        law_joined_first(first, rest.drop_last(), sep);
        assert(joined(all, sep) =~= first + sep + joined(rest, sep));
    }
}

/// The words of words that were joined by a blank are those words.
pub proof fn law_words_are_read_back(ws: Seq<Seq<char>>)
    requires
        forall|i: int|
            0 <= i < ws.len() ==> (#[trigger] ws[i]).len() > 0 && (forall|j: int|
                0 <= j < ws[i].len() ==> !is_space(#[trigger] ws[i][j])),
    ensures
        words(joined(ws, " "@)) == ws,
    decreases ws.len(),
{
    reveal_strlit(" ");
    let blank = " "@;
    assert(blank =~= seq![' ']);
    if ws.len() == 0 {
        assert(words(joined(ws, blank)) =~= ws);
    } else {
        let w = ws[0];
        let rest = ws.skip(1);
        assert(ws =~= seq![w] + rest);
        assert forall|i: int| 0 <= i < rest.len() implies (#[trigger] rest[i]).len() > 0 && (forall|
            j: int,
        |
            0 <= j < rest[i].len() ==> !is_space(#[trigger] rest[i][j])) by {
            assert(rest[i] == ws[i + 1]);
        }
        law_words_are_read_back(rest);
        law_joined_first(w, rest, blank);
        if rest.len() == 0 {
            assert(joined(ws, blank) =~= w + Seq::<char>::empty());
            law_first_word(w, Seq::empty());
            assert(words(joined(ws, blank)) =~= ws);
        } else {
            let tail = blank + joined(rest, blank);
            assert(joined(ws, blank) =~= w + tail);
            assert(tail[0] == ' ');
            law_first_word(w, tail);
            law_leading_space(blank, joined(rest, blank));
        }
    }
}

/// Each joined part can be found in the joined text.
pub proof fn law_joined_holds_parts(parts: Seq<Seq<char>>, sep: Seq<char>, i: int)
    requires
        0 <= i < parts.len(),
    ensures
        contains_text(joined(parts, sep), parts[i]),
    decreases parts.len(),
{
    let all = joined(parts, sep);
    if parts.len() == 1 {
        assert(text_at(all, parts[i], 0)) by {
            assert(all.subrange(0, all.len() as int) =~= all);
        }
    } else {
        let front = parts.drop_last();
        let head = joined(front, sep);
        if i < front.len() {
            law_joined_holds_parts(front, sep, i);
            assert(front[i] == parts[i]);
            let k = choose|k: int| #[trigger] text_at(head, parts[i], k);
            assert(all.subrange(k, k + parts[i].len()) =~= head.subrange(k, k + parts[i].len()));
            assert(text_at(all, parts[i], k));
        } else {
            let k = (head + sep).len() as int;
            assert(all.subrange(k, k + parts[i].len()) =~= parts[i]);
            assert(text_at(all, parts[i], k));
        }
    }
}

/// A text holds another where it is that text with something before and
/// something behind it, and nowhere else; it begins with it where nothing is
/// before it.
pub proof fn law_text_within(s: Seq<char>, t: Seq<char>)
    ensures
        contains_text(s, t) <==> exists|a: Seq<char>, b: Seq<char>| s == #[trigger] (a + t + b),
        starts_with_text(s, t) <==> exists|b: Seq<char>| s == #[trigger] (t + b),
{
    if contains_text(s, t) {
        let i = choose|i: int| #[trigger] text_at(s, t, i);
        let a = s.take(i);
        let b = s.skip(i + t.len());
        assert(s =~= a + t + b) by {
            assert forall|k: int| 0 <= k < s.len() implies s[k] == #[trigger] (a + t + b)[k] by {
                if i <= k < i + t.len() {
                    assert(s.subrange(i, i + t.len())[k - i] == t[k - i]);
                }
            }
        }
        assert(s == a + t + b);
    }
    if exists|a: Seq<char>, b: Seq<char>| s == #[trigger] (a + t + b) {
        let (a, b) = choose|a: Seq<char>, b: Seq<char>| s == #[trigger] (a + t + b);
        let i = a.len() as int;
        assert(s.subrange(i, i + t.len()) =~= t);
        assert(text_at(s, t, i));
    }
    if starts_with_text(s, t) {
        let b = s.skip(t.len() as int);
        assert(s =~= t + b) by {
            assert forall|k: int| 0 <= k < s.len() implies s[k] == #[trigger] (t + b)[k] by {
                if k < t.len() {
                    assert(s.subrange(0, t.len() as int)[k] == t[k]);
                }
            }
        }
        assert(s == t + b);
    }
    if exists|b: Seq<char>| s == #[trigger] (t + b) {
        let b = choose|b: Seq<char>| s == #[trigger] (t + b);
        assert(s.subrange(0, t.len() as int) =~= t);
    }
}

/// A line ends at its line feed, with or without a carriage return before it,
/// and the lines of what follows come after it; a last line needs no line feed.
pub proof fn law_first_line(line: Seq<char>, rest: Seq<char>)
    requires
        !line.contains('\n'),
    ensures
        lines_of(line + seq!['\r', '\n'] + rest) == seq![line] + lines_of(rest),
        line.len() == 0 || line.last() != '\r' ==> lines_of(line + seq!['\n'] + rest) == seq![line]
            + lines_of(rest),
        line.len() > 0 ==> lines_of(line) == seq![line],
        lines_of(seq![]) == Seq::<Seq<char>>::empty(),
{
    assert forall|j: int| 0 <= j < line.len() implies line[j] != '\n' by {
        assert(line.contains(line[j]));
    }
    let n = line.len() as int;
    let s = line + seq!['\r', '\n'] + rest;
    assert forall|j: int| 0 <= j < n + 1 implies s[j] != '\n' by {
        if j < n {
            assert(s[j] == line[j]);
        }
    }
    lemma_find_char_is(s, '\n', n + 1);
    assert(s.take(n + 1).drop_last() =~= line);
    assert(s.take(n + 1).last() == '\r');
    assert(s.skip(n + 2) =~= rest);
    let u = line + seq!['\n'] + rest;
    assert forall|j: int| 0 <= j < n implies u[j] != '\n' by {
        assert(u[j] == line[j]);
    }
    lemma_find_char_is(u, '\n', n);
    assert(u.take(n) =~= line);
    assert(u.skip(n + 1) =~= rest);
    lemma_find_char_is(line, '\n', n);
}

/// The fields of a text, joined again, are the text.
pub proof fn law_fields_are_joined_back(s: Seq<char>, c: char)
    ensures
        joined(fields(s, c), seq![c]) == s,
        fields(s, c).len() > 0,
        forall|i: int| 0 <= i < fields(s, c).len() ==> !(#[trigger] fields(s, c)[i]).contains(c),
    decreases s.len(),
{
    lemma_find_char(s, c);
    let i = find_char(s, c) as int;
    let f = fields(s, c);
    if i < s.len() {
        let rest = s.skip(i + 1);
        law_fields_are_joined_back(rest, c);
        law_joined_first(s.take(i), fields(rest, c), seq![c]);
        assert(s =~= s.take(i) + seq![c] + rest);
        assert forall|k: int| 0 <= k < f.len() implies !(#[trigger] f[k]).contains(c) by {
            if k > 0 {
                assert(f[k] == fields(rest, c)[k - 1]);
            } else {
                assert(f[0] == s.take(i));
            }
        }
    } else {
        assert(f[0] == s);
    }
}

/// The value that follows a keyword is the token behind the first occurrence of
/// the keyword, whatever stands before and behind the two.
pub proof fn law_token_following(
    a: Seq<Seq<char>>,
    key: Seq<char>,
    value: Seq<char>,
    b: Seq<Seq<char>>,
)
    requires
        !a.contains(key),
    ensures
        token_following(a + seq![key, value] + b, key) == Some(value),
        token_following(a + seq![key], key) is None,
        token_following(a, key) is None,
{
    let t = a + seq![key, value] + b;
    assert forall|j: int| 0 <= j < a.len() implies a[j] != key by {
        assert(a.contains(a[j]));
    }
    assert forall|j: int| 0 <= j < a.len() implies #[trigger] t[j] != key by {
        assert(t[j] == a[j]);
    }
    lemma_token_position(t, key, a.len() as int);
    let u = a + seq![key];
    assert forall|j: int| 0 <= j < a.len() implies #[trigger] u[j] != key by {
        assert(u[j] == a[j]);
    }
    lemma_token_position(u, key, a.len() as int);
    lemma_token_position(a, key, a.len() as int);
}

/// What occurred first stays first: more items add to the distinct items only
/// behind those that are there.
pub proof fn law_first_occurrences_stay(a: Seq<Seq<char>>, b: Seq<Seq<char>>)
    ensures
        first_occurrences(a + b).len() >= first_occurrences(a).len(),
        first_occurrences(a + b).take(first_occurrences(a).len() as int) == first_occurrences(a),
    decreases b.len(),
{
    let first = first_occurrences(a);
    if b.len() == 0 {
        assert(a + b =~= a);
        assert(first.take(first.len() as int) =~= first);
    } else {
        assert((a + b).drop_last() =~= a + b.drop_last());
        law_first_occurrences_stay(a, b.drop_last());
        let before = first_occurrences(a + b.drop_last());
        assert(before.push((a + b).last()).take(first.len() as int) =~= before.take(
            first.len() as int,
        ));
    }
}

/// Replacing changes the one character and no other, and the length stays.
pub proof fn law_replaced(s: Seq<char>, from: char, to: char)
    ensures
        replaced(s, from, to).len() == s.len(),
        forall|i: int| 0 <= i < s.len() && s[i] == from ==> #[trigger] replaced(s, from, to)[i] == to,
        forall|i: int|
            0 <= i < s.len() && s[i] != from ==> #[trigger] replaced(s, from, to)[i] == s[i],
{
}

/// Lowering changes the letters from A to Z into those from a to z and nothing
/// else.
pub proof fn law_lowered(s: Seq<char>)
    ensures
        lowered(s).len() == s.len(),
        forall|i: int|
            0 <= i < s.len() ==> (if 'A' <= s[i] <= 'Z' {
                'a' <= #[trigger] lowered(s)[i] <= 'z' && lowered(s)[i] as int - 'a' as int
                    == s[i] as int - 'A' as int
            } else {
                lowered(s)[i] == s[i]
            }),
        lowered(lowered(s)) == lowered(s),
{
    assert(lowered(lowered(s)) =~= lowered(s));
}

/// A padded text is the text with blanks behind it up to the width; a text that
/// is as long already stays as it is.
pub proof fn law_padded(s: Seq<char>, width: nat)
    ensures
        padded(s, width).len() == (if s.len() < width {
            width
        } else {
            s.len()
        }),
        padded(s, width).take(s.len() as int) == s,
        forall|i: int| s.len() <= i < padded(s, width).len() ==> #[trigger] padded(s, width)[i] == ' ',
{
    assert(padded(s, width).take(s.len() as int) =~= s);
}

/// A number is read back from its numeral, which has the digit of the units
/// last, the numeral of the tens before it and no zero in front.
pub proof fn law_numerals_are_read(n: nat)
    ensures
        unsigned_value(decimal_text(n)) == Some(n),
        unsigned_value(seq!['+'] + decimal_text(n)) == Some(n),
        decimal_text(n).len() > 0,
        decimal_text(n).last() == "0123456789"@[(n % 10) as int],
        n < 10 ==> decimal_text(n).len() == 1,
        n >= 10 ==> decimal_text(n).drop_last() == decimal_text(n / 10),
        n > 0 ==> decimal_text(n)[0] != '0',
    decreases n,
{
    reveal_strlit("0123456789");
    lemma_decimal_round_trip(n);
    lemma_decimal_chars(n);
    let d = decimal_text(n);
    assert(is_digit(d[0]));
    assert((seq!['+'] + d).skip(1) =~= d);
    let last = digit_char(n % 10);
    assert(d.last() == last);
    assert(n % 10 == 0 || n % 10 == 1 || n % 10 == 2 || n % 10 == 3 || n % 10 == 4 || n % 10 == 5
        || n % 10 == 6 || n % 10 == 7 || n % 10 == 8 || n % 10 == 9);
    if n >= 10 {
        assert(d.drop_last() =~= decimal_text(n / 10));
        law_numerals_are_read(n / 10);
        assert(d[0] == decimal_text(n / 10)[0]);
    }
}

/// A text with anything but digits in it, behind a plus sign at most, is no
/// number, and neither is the empty text.
pub proof fn law_other_texts_are_no_numbers(s: Seq<char>, i: int)
    ensures
        s.len() == 0 ==> unsigned_value(s) is None,
        0 <= i < s.len() && !('0' <= s[i] <= '9') && (i > 0 || s[i] != '+') ==> unsigned_value(
            s,
        ) is None,
{
    if 0 <= i < s.len() && !('0' <= s[i] <= '9') && (i > 0 || s[i] != '+') {
        if s[0] == '+' {
            assert(s.skip(1)[i - 1] == s[i]);
        }
    }
}

/// The sixteen hexadecimal digits stand for their positions, in either case.
pub proof fn law_hex_digits(i: int)
    requires
        0 <= i < 16,
    ensures
        hex_digit("0123456789abcdef"@[i]) == Some(i as nat),
        hex_digit("0123456789ABCDEF"@[i]) == Some(i as nat),
        forall|c: char| #[trigger]
            hex_digit(c) is Some ==> '0' <= c <= '9' || 'a' <= c <= 'f' || 'A' <= c <= 'F',
{
    reveal_strlit("0123456789abcdef");
    reveal_strlit("0123456789ABCDEF");
    assert(i == 0 || i == 1 || i == 2 || i == 3 || i == 4 || i == 5 || i == 6 || i == 7 || i == 8
        || i == 9 || i == 10 || i == 11 || i == 12 || i == 13 || i == 14 || i == 15);
}

/// What one part of a text holds, the text holds.
pub proof fn lemma_part_within(s: Seq<char>, t: Seq<char>, u: Seq<char>)
    ensures
        contains_text(s, u) ==> contains_text(s + t, u),
        contains_text(t, u) ==> contains_text(s + t, u),
        contains_text(u, u),
{
    if contains_text(s, u) {
        let i = choose|i: int| #[trigger] text_at(s, u, i);
        assert((s + t).subrange(i, i + u.len()) =~= s.subrange(i, i + u.len()));
        assert(text_at(s + t, u, i));
    }
    if contains_text(t, u) {
        let i = choose|i: int| #[trigger] text_at(t, u, i);
        let k = i + s.len();
        assert((s + t).subrange(k, k + u.len()) =~= t.subrange(i, i + u.len()));
        assert(text_at(s + t, u, k));
    }
    assert(u.subrange(0, u.len() as int) =~= u);
    assert(text_at(u, u, 0));
}

/// Digits without a zero in front are the numeral of the number that they
/// denote.
pub proof fn law_numerals_are_unique(s: Seq<char>)
    requires
        s.len() > 0,
        forall|i: int| 0 <= i < s.len() ==> '0' <= #[trigger] s[i] <= '9',
        s.len() > 1 ==> s[0] != '0',
    ensures
        decimal_text(decimal_value(s)) == s,
    decreases s.len(),
{
    let d = (s.last() as nat - 48) as nat;
    assert('0' <= s[s.len() - 1] <= '9');
    if s.len() == 1 {
        assert(s.drop_last() =~= Seq::empty());
        assert(decimal_value(s.drop_last()) == 0);
        assert(decimal_text(decimal_value(s)) =~= s);
    } else {
        let front = s.drop_last();
        assert(front[0] == s[0]);
        assert forall|i: int| 0 <= i < front.len() implies '0' <= #[trigger] front[i] <= '9' by {
            assert(front[i] == s[i]);
        }
        law_numerals_are_unique(front);
        let high = decimal_value(front);
        assert(high > 0);
        let n = decimal_value(s);
        assert(n == high * 10 + d);
        assert(n / 10 == high && n % 10 == d);
        assert(decimal_text(n) =~= s);
    }
}

/// Zeros in front of a number change nothing.
pub proof fn law_leading_zeros(s: Seq<char>)
    requires
        s.len() > 0,
        s[0] != '+',
        unsigned_value(s) is Some,
    ensures
        unsigned_value(seq!['0'] + s) == unsigned_value(s),
{
    let z = seq!['0'] + s;
    assert(all_digits(s));
    assert forall|i: int| 0 <= i < z.len() implies is_digit(#[trigger] z[i]) by {
        if i > 0 {
            assert(z[i] == s[i - 1]);
        }
    }
    lemma_leading_zero(s);
}

proof fn lemma_leading_zero(s: Seq<char>)
    ensures
        decimal_value(seq!['0'] + s) == decimal_value(s),
    decreases s.len(),
{
    let z = seq!['0'] + s;
    if s.len() == 0 {
        assert(z.drop_last() =~= s);
    } else {
        assert(z.drop_last() =~= seq!['0'] + s.drop_last());
        lemma_leading_zero(s.drop_last());
    }
}

/// A digit behind a number is worth one and moves the others up a place.
pub proof fn law_digits_are_positional(s: Seq<char>, c: char)
    requires
        s.len() > 0,
        s[0] != '+',
        unsigned_value(s) is Some,
        '0' <= c <= '9',
    ensures
        unsigned_value(s.push(c)) == Some(
            (10 * unsigned_value(s)->0 + (c as int - '0' as int)) as nat,
        ),
{
    let t = s.push(c);
    assert(all_digits(s));
    assert forall|i: int| 0 <= i < t.len() implies is_digit(#[trigger] t[i]) by {
        if i < s.len() {
            assert(t[i] == s[i]);
        }
    }
    assert(t.drop_last() =~= s);
    assert(t[0] == s[0]);
}

} // verus!
