//! Strings as sequences of characters: the operations every other module
//! builds its messages and parsers from.

use vstd::prelude::*;
use vstd::utf8::*;

verus! {

/// `String::push` appends one character.
pub assume_specification[ String::push ](s: &mut String, c: char)
    ensures
        final(s)@ == old(s)@.push(c),
;

/// `String::push_str` appends a whole string.
pub assume_specification[ String::push_str ](s: &mut String, other: &str)
    ensures
        final(s)@ == old(s)@ + other@,
;

// ---------------------------------------------------------------------------
// Comparison
// ---------------------------------------------------------------------------

/// Two byte encodings agree only when the characters do.
pub proof fn lemma_encoding_injective(a: Seq<char>, b: Seq<char>)
    requires
        encode_utf8(a) == encode_utf8(b),
    ensures
        a == b,
{
    encode_utf8_decode_utf8(a);
    encode_utf8_decode_utf8(b);
}

/// Whether two strings hold the same characters.
pub fn same_text(a: &str, b: &str) -> (same: bool)
    ensures
        same == (a@ == b@),
{
    let x = a.as_bytes();
    let y = b.as_bytes();
    if x.len() != y.len() {
        return false;
    }
    let mut i: usize = 0;
    while i < x.len()
        invariant
            x@ == encode_utf8(a@),
            y@ == encode_utf8(b@),
            x@.len() == y@.len(),
            i <= x@.len(),
            forall|k: int| 0 <= k < i ==> x@[k] == y@[k],
        decreases x@.len() - i,
    {
        if x[i] != y[i] {
            return false;
        }
        i = i + 1;
    }
    proof {
        assert(x@ =~= y@);
        lemma_encoding_injective(a@, b@);
    }
    true
}

/// Lexicographic order on characters, which is also the order of the UTF-8
/// encodings.
pub open spec fn text_le(a: Seq<char>, b: Seq<char>) -> bool
    decreases a.len(),
{
    if a.len() == 0 {
        true
    } else if b.len() == 0 {
        false
    } else if a[0] != b[0] {
        (a[0] as int) < (b[0] as int)
    } else {
        text_le(a.drop_first(), b.drop_first())
    }
}

pub proof fn lemma_text_le_reflexive(a: Seq<char>)
    ensures
        text_le(a, a),
    decreases a.len(),
{
    if a.len() > 0 {
        lemma_text_le_reflexive(a.drop_first());
    }
}

pub proof fn lemma_text_le_total(a: Seq<char>, b: Seq<char>)
    ensures
        text_le(a, b) || text_le(b, a),
    decreases a.len(),
{
    if a.len() > 0 && b.len() > 0 && a[0] == b[0] {
        lemma_text_le_total(a.drop_first(), b.drop_first());
    }
}

pub proof fn lemma_text_le_antisymmetric(a: Seq<char>, b: Seq<char>)
    requires
        text_le(a, b),
        text_le(b, a),
    ensures
        a == b,
    decreases a.len(),
{
    if a.len() > 0 {
        lemma_text_le_antisymmetric(a.drop_first(), b.drop_first());
        assert(a =~= seq![a[0]] + a.drop_first());
        assert(b =~= seq![b[0]] + b.drop_first());
    } else {
        assert(a =~= b);
    }
}

pub proof fn lemma_text_le_transitive(a: Seq<char>, b: Seq<char>, c: Seq<char>)
    requires
        text_le(a, b),
        text_le(b, c),
    ensures
        text_le(a, c),
    decreases a.len(),
{
    if a.len() > 0 && a[0] == b[0] && b[0] == c[0] {
        lemma_text_le_transitive(a.drop_first(), b.drop_first(), c.drop_first());
    }
}

/// Whether `a` comes before or is equal to `b`.
pub fn text_before(a: &str, b: &str) -> (before: bool)
    ensures
        before == text_le(a@, b@),
{
    let x = chars_of(a);
    let y = chars_of(b);
    let mut i: usize = 0;
    proof {
        assert(x@.subrange(0, x@.len() as int) =~= a@);
        assert(y@.subrange(0, y@.len() as int) =~= b@);
    }
    while i < x.len() && i < y.len()
        invariant
            x@ == a@,
            y@ == b@,
            i <= x@.len(),
            i <= y@.len(),
            text_le(a@, b@) == text_le(
                x@.subrange(i as int, x@.len() as int),
                y@.subrange(i as int, y@.len() as int),
            ),
        decreases x@.len() - i,
    {
        let ghost p = x@.subrange(i as int, x@.len() as int);
        let ghost q = y@.subrange(i as int, y@.len() as int);
        if x[i] != y[i] {
            return x[i] < y[i];
        }
        proof {
            assert(p.drop_first() =~= x@.subrange(i + 1, x@.len() as int));
            assert(q.drop_first() =~= y@.subrange(i + 1, y@.len() as int));
        }
        i = i + 1;
    }
    i >= x.len()
}

// ---------------------------------------------------------------------------
// Conversion
// ---------------------------------------------------------------------------

/// The characters of a string, in order.
pub fn chars_of(s: &str) -> (chars: Vec<char>)
    ensures
        chars@ == s@,
{
    let mut out: Vec<char> = Vec::new();
    for c in it: s.chars()
        invariant
            it.seq() == s@,
            out@ == s@.take(it.index()),
    {
        out.push(c);
        proof {
            assert(s@.take(it.index() + 1) =~= s@.take(it.index()).push(s@[it.index()]));
        }
    }
    proof {
        assert(s@.take(s@.len() as int) =~= s@);
    }
    out
}

/// A string holding `chars[from..to]`.
pub fn text_of(chars: &Vec<char>, from: usize, to: usize) -> (s: String)
    requires
        from <= to <= chars@.len(),
    ensures
        s@ == chars@.subrange(from as int, to as int),
{
    let mut out = String::new();
    let mut i: usize = from;
    proof {
        assert(chars@.subrange(from as int, from as int) =~= Seq::<char>::empty());
    }
    while i < to
        invariant
            from <= i <= to <= chars@.len(),
            out@ == chars@.subrange(from as int, i as int),
        decreases to - i,
    {
        out.push(chars[i]);
        i = i + 1;
        proof {
            assert(chars@.subrange(from as int, i as int) =~= chars@.subrange(
                from as int,
                i - 1,
            ).push(chars@[i - 1]));
        }
    }
    out
}

/// The views of a list, in order.
pub open spec fn views<T: View>(list: Seq<T>) -> Seq<T::V> {
    list.map_values(|t: T| t@)
}

/// The view of an optional value.
pub open spec fn opt_view<T: View>(o: Option<T>) -> Option<T::V> {
    match o {
        Some(t) => Some(t@),
        None => None,
    }
}

pub proof fn lemma_views_push<T: View>(list: Seq<T>, t: T)
    ensures
        views(list.push(t)) == views(list).push(t@),
{
    assert(views(list.push(t)) =~= views(list).push(t@));
}

pub proof fn lemma_views_update<T: View>(list: Seq<T>, i: int, t: T)
    requires
        0 <= i < list.len(),
    ensures
        views(list.update(i, t)) == views(list).update(i, t@),
{
    assert(views(list.update(i, t)) =~= views(list).update(i, t@));
}

pub proof fn lemma_views_remove<T: View>(list: Seq<T>, i: int)
    requires
        0 <= i < list.len(),
    ensures
        views(list.remove(i)) == views(list).remove(i),
{
    assert(views(list.remove(i)) =~= views(list).remove(i));
}

/// The strings of a list as sequences.
pub open spec fn texts(list: Seq<String>) -> Seq<Seq<char>> {
    list.map_values(|t: String| t@)
}

pub proof fn lemma_texts_push(list: Seq<String>, t: String)
    ensures
        texts(list.push(t)) == texts(list).push(t@),
{
    assert(texts(list.push(t)) =~= texts(list).push(t@));
}

// ---------------------------------------------------------------------------
// Searching
// ---------------------------------------------------------------------------

/// The first position of `c` in `s`, or the length of `s` when it is absent.
pub open spec fn find_char(s: Seq<char>, c: char) -> int
    decreases s.len(),
{
    if s.len() == 0 {
        0
    } else if s[0] == c {
        0
    } else {
        1 + find_char(s.drop_first(), c)
    }
}

/// What it means to be the first position.
pub proof fn lemma_find_char(s: Seq<char>, c: char)
    ensures
        0 <= find_char(s, c) <= s.len(),
        find_char(s, c) < s.len() ==> s[find_char(s, c)] == c,
        forall|k: int| 0 <= k < find_char(s, c) ==> s[k] != c,
    decreases s.len(),
{
    if s.len() > 0 && s[0] != c {
        lemma_find_char(s.drop_first(), c);
        assert forall|k: int| 0 <= k < find_char(s, c) implies s[k] != c by {
            if k > 0 {
                assert(s.drop_first()[k - 1] == s[k]);
            }
        }
    }
}

/// The first position is the only one with that property.
pub proof fn lemma_find_char_is(s: Seq<char>, c: char, at: int)
    requires
        0 <= at <= s.len(),
        at < s.len() ==> s[at] == c,
        forall|k: int| 0 <= k < at ==> s[k] != c,
    ensures
        find_char(s, c) == at,
{
    lemma_find_char(s, c);
    let f = find_char(s, c);
    if f < at {
        assert(s[f] != c);
    } else if at < f {
        assert(s[at] != c);
    }
}

/// The first position of `c` at or after `from`, or the length.
pub fn position_from(chars: &Vec<char>, c: char, from: usize) -> (at: usize)
    requires
        from <= chars@.len(),
    ensures
        from <= at <= chars@.len(),
        at - from == find_char(chars@.skip(from as int), c),
        at < chars@.len() ==> chars@[at as int] == c,
        forall|k: int| from <= k < at ==> chars@[k] != c,
{
    let mut i: usize = from;
    while i < chars.len()
        invariant
            from <= i <= chars@.len(),
            forall|k: int| from <= k < i ==> chars@[k] != c,
        decreases chars@.len() - i,
    {
        if chars[i] == c {
            proof {
                lemma_find_char_is(chars@.skip(from as int), c, i - from);
            }
            return i;
        }
        i = i + 1;
    }
    proof {
        lemma_find_char_is(chars@.skip(from as int), c, i - from);
    }
    i
}

/// Whether `needle` stands in `s` at position `at`.
pub open spec fn found_at(s: Seq<char>, needle: Seq<char>, at: int) -> bool {
    &&& 0 <= at
    &&& at + needle.len() <= s.len()
    &&& s.subrange(at, at + needle.len()) == needle
}

/// How many bytes a text takes.
pub open spec fn byte_len(s: Seq<char>) -> nat {
    encode_utf8(s).len()
}

pub fn byte_count(s: &str) -> (n: usize)
    ensures
        n == byte_len(s@),
{
    s.as_bytes().len()
}

/// Whether `needle` stands anywhere in `s`.
pub open spec fn contains_text(s: Seq<char>, needle: Seq<char>) -> bool {
    exists|at: int| found_at(s, needle, at)
}

/// Whether `needle` stands in `chars` at `at`.
pub fn stands_at(chars: &Vec<char>, needle: &Vec<char>, at: usize) -> (yes: bool)
    ensures
        yes == found_at(chars@, needle@, at as int),
{
    if at > chars.len() || needle.len() > chars.len() - at {
        return false;
    }
    let mut k: usize = 0;
    assert(chars.len() <= usize::MAX);
    while k < needle.len()
        invariant
            at + needle@.len() <= chars@.len(),
            chars@.len() <= usize::MAX,
            k <= needle@.len(),
            forall|j: int| 0 <= j < k ==> chars@[at + j] == needle@[j],
        decreases needle@.len() - k,
    {
        if chars[at + k] != needle[k] {
            proof {
                assert(chars@.subrange(at as int, at + needle@.len())[k as int] != needle@[k as int]);
            }
            return false;
        }
        k = k + 1;
    }
    proof {
        assert(chars@.subrange(at as int, at + needle@.len()) =~= needle@);
    }
    true
}

/// The first place where `needle` stands in `s`, counted in characters.
pub fn find_text(chars: &Vec<char>, needle: &Vec<char>) -> (at: Option<usize>)
    ensures
        match at {
            Some(i) => found_at(chars@, needle@, i as int) && forall|j: int|
                0 <= j < i ==> !#[trigger] found_at(chars@, needle@, j),
            None => !contains_text(chars@, needle@),
        },
{
    let mut i: usize = 0;
    loop
        invariant
            i <= chars@.len(),
            forall|j: int| 0 <= j < i ==> !#[trigger] found_at(chars@, needle@, j),
        decreases chars@.len() - i,
    {
        if stands_at(chars, needle, i) {
            return Some(i);
        }
        if i == chars.len() {
            return None;
        }
        i = i + 1;
    }
}

/// Whether `s` holds `needle` somewhere.
pub fn has_text(s: &str, needle: &str) -> (yes: bool)
    ensures
        yes == contains_text(s@, needle@),
{
    let chars = chars_of(s);
    let wanted = chars_of(needle);
    match find_text(&chars, &wanted) {
        Some(_) => true,
        None => false,
    }
}

/// Whether `s` begins with `prefix`.
pub open spec fn begins_with(s: Seq<char>, prefix: Seq<char>) -> bool {
    found_at(s, prefix, 0)
}

pub fn has_prefix(s: &str, prefix: &str) -> (yes: bool)
    ensures
        yes == begins_with(s@, prefix@),
{
    let chars = chars_of(s);
    let wanted = chars_of(prefix);
    stands_at(&chars, &wanted, 0)
}

/// Whether a list of strings holds `t`.
pub open spec fn lists(list: Seq<String>, t: Seq<char>) -> bool {
    exists|i: int| 0 <= i < list.len() && (#[trigger] list[i])@ == t
}

/// A list of strings holds `t` when its sequences do.
pub proof fn lemma_lists(list: Seq<String>, t: Seq<char>)
    ensures
        lists(list, t) == texts(list).contains(t),
{
    if lists(list, t) {
        let i = choose|i: int| 0 <= i < list.len() && (#[trigger] list[i])@ == t;
        assert(texts(list)[i] == t);
    }
    if texts(list).contains(t) {
        let i = choose|i: int| 0 <= i < texts(list).len() && texts(list)[i] == t;
        assert(list[i]@ == t);
    }
}

pub fn listed(list: &Vec<String>, t: &str) -> (yes: bool)
    ensures
        yes == lists(list@, t@),
        yes == texts(list@).contains(t@),
{
    proof {
        lemma_lists(list@, t@);
    }
    let mut i: usize = 0;
    while i < list.len()
        invariant
            i <= list@.len(),
            lists(list@, t@) == texts(list@).contains(t@),
            forall|k: int| 0 <= k < i ==> (#[trigger] list@[k])@ != t@,
        decreases list@.len() - i,
    {
        if same_text(list[i].as_str(), t) {
            assert(list@[i as int]@ == t@);
            return true;
        }
        i = i + 1;
    }
    false
}

// ---------------------------------------------------------------------------
// Splitting and joining
// ---------------------------------------------------------------------------

/// `s` cut at every `sep`; always at least one piece.
pub open spec fn split(s: Seq<char>, sep: char) -> Seq<Seq<char>>
    decreases s.len(),
{
    let i = find_char(s, sep);
    if 0 <= i < s.len() {
        seq![s.take(i)] + split(s.skip(i + 1), sep)
    } else {
        seq![s]
    }
}

/// The pieces of `s` between the occurrences of `sep`.
pub fn split_text(s: &str, sep: char) -> (parts: Vec<String>)
    ensures
        texts(parts@) == split(s@, sep),
        parts@.len() >= 1,
{
    let chars = chars_of(s);
    let mut out: Vec<String> = Vec::new();
    let mut from: usize = 0;
    proof {
        assert(texts(out@) =~= Seq::<Seq<char>>::empty());
        assert(s@.skip(0) =~= s@);
        assert(texts(out@) + split(s@, sep) =~= split(s@, sep));
    }
    loop
        invariant
            chars@ == s@,
            from <= chars@.len(),
            texts(out@) + split(chars@.skip(from as int), sep) == split(s@, sep),
        decreases chars@.len() - from,
    {
        let at = position_from(&chars, sep, from);
        let ghost rest = chars@.skip(from as int);
        let ghost before = texts(out@);
        let part = text_of(&chars, from, at);
        out.push(part);
        proof {
            assert(texts(out@) =~= before.push(part@));
            assert(part@ =~= rest.take(at - from));
        }
        if at == chars.len() {
            proof {
                assert(rest.take(at - from) =~= rest);
                assert(before + seq![rest] =~= texts(out@));
            }
            return out;
        }
        proof {
            assert(rest.skip(at - from + 1) =~= chars@.skip(at + 1));
            assert(before + (seq![part@] + split(chars@.skip(at + 1), sep)) =~= texts(out@) + split(
                chars@.skip(at + 1),
                sep,
            ));
        }
        from = at + 1;
    }
}

/// The parts with `sep` between each two.
pub open spec fn join(parts: Seq<Seq<char>>, sep: Seq<char>) -> Seq<char>
    decreases parts.len(),
{
    if parts.len() == 0 {
        Seq::empty()
    } else if parts.len() == 1 {
        parts[0]
    } else {
        join(parts.drop_last(), sep) + sep + parts.last()
    }
}

pub fn join_text(parts: &Vec<String>, sep: &str) -> (s: String)
    ensures
        s@ == join(texts(parts@), sep@),
{
    let mut out = String::new();
    let mut i: usize = 0;
    while i < parts.len()
        invariant
            i <= parts@.len(),
            out@ == join(texts(parts@.take(i as int)), sep@),
        decreases parts@.len() - i,
    {
        if i > 0 {
            out.push_str(sep);
        }
        out.push_str(parts[i].as_str());
        proof {
            let now = texts(parts@.take(i + 1));
            assert(now.drop_last() =~= texts(parts@.take(i as int)));
            assert(now.last() == parts@[i as int]@);
            if i == 0 {
                assert(Seq::<char>::empty() + parts@[0]@ =~= parts@[0]@);
            }
        }
        i = i + 1;
    }
    proof {
        assert(parts@.take(parts@.len() as int) =~= parts@);
    }
    out
}

/// Joining on the left end: the first part, the separator, the rest.
pub proof fn lemma_join_first(parts: Seq<Seq<char>>, sep: Seq<char>)
    requires
        parts.len() >= 2,
    ensures
        join(parts, sep) == parts[0] + sep + join(parts.drop_first(), sep),
    decreases parts.len(),
{
    let rest = parts.drop_first();
    reveal_with_fuel(join, 2);
    if parts.len() == 2 {
        assert(parts.drop_last() =~= seq![parts[0]]);
        assert(rest =~= seq![parts[1]]);
    } else {
        lemma_join_first(parts.drop_last(), sep);
        assert(parts.drop_last().drop_first() =~= rest.drop_last());
        assert(join(parts, sep) =~= parts[0] + sep + join(rest, sep));
    }
}

/// Joining the pieces of a split gives the string back.
pub proof fn split_then_join(s: Seq<char>, sep: char)
    ensures
        join(split(s, sep), seq![sep]) == s,
        split(s, sep).len() >= 1,
    decreases s.len(),
{
    lemma_find_char(s, sep);
    let i = find_char(s, sep);
    if i < s.len() {
        let rest = s.skip(i + 1);
        split_then_join(rest, sep);
        lemma_join_first(split(s, sep), seq![sep]);
        assert(split(s, sep).drop_first() =~= split(rest, sep));
        assert(s =~= s.take(i) + seq![sep] + rest);
    }
}

/// No piece of a split holds the separator.
pub proof fn split_parts_hold_no_separator(s: Seq<char>, sep: char)
    ensures
        forall|i: int, k: int|
            0 <= i < split(s, sep).len() && 0 <= k < split(s, sep)[i].len() ==> (#[trigger] split(
                s,
                sep,
            )[i][k]) != sep,
    decreases s.len(),
{
    lemma_find_char(s, sep);
    let at = find_char(s, sep);
    if at < s.len() {
        let rest = s.skip(at + 1);
        split_parts_hold_no_separator(rest, sep);
        assert forall|i: int, k: int|
            0 <= i < split(s, sep).len() && 0 <= k < split(s, sep)[i].len() implies (
        #[trigger] split(s, sep)[i][k]) != sep by {
            if i > 0 {
                assert(split(s, sep)[i] == split(rest, sep)[i - 1]);
                assert(split(rest, sep)[i - 1][k] != sep);
            }
        }
    }
}

// ---------------------------------------------------------------------------
// Trimming
// ---------------------------------------------------------------------------

/// The characters Unicode gives the property `White_Space`.
pub open spec fn is_space(c: char) -> bool {
    ||| '\u{9}' <= c <= '\u{d}'
    ||| c == ' '
    ||| c == '\u{85}'
    ||| c == '\u{a0}'
    ||| c == '\u{1680}'
    ||| '\u{2000}' <= c <= '\u{200a}'
    ||| c == '\u{2028}'
    ||| c == '\u{2029}'
    ||| c == '\u{202f}'
    ||| c == '\u{205f}'
    ||| c == '\u{3000}'
}

pub fn space(c: char) -> (yes: bool)
    ensures
        yes == is_space(c),
{
    ('\u{9}' <= c && c <= '\u{d}') || c == ' ' || c == '\u{85}' || c == '\u{a0}' || c
        == '\u{1680}' || ('\u{2000}' <= c && c <= '\u{200a}') || c == '\u{2028}' || c == '\u{2029}'
        || c == '\u{202f}' || c == '\u{205f}' || c == '\u{3000}'
}

pub open spec fn trim_start(s: Seq<char>) -> Seq<char>
    decreases s.len(),
{
    if s.len() > 0 && is_space(s[0]) {
        trim_start(s.drop_first())
    } else {
        s
    }
}

pub open spec fn trim_end(s: Seq<char>) -> Seq<char>
    decreases s.len(),
{
    if s.len() > 0 && is_space(s.last()) {
        trim_end(s.drop_last())
    } else {
        s
    }
}

/// `s` without the white space at its ends.
pub open spec fn trim(s: Seq<char>) -> Seq<char> {
    trim_end(trim_start(s))
}

/// `chars[from..]` without the white space at its end.
pub fn end_of_text(chars: &Vec<char>, from: usize) -> (to: usize)
    requires
        from <= chars@.len(),
    ensures
        from <= to <= chars@.len(),
        chars@.subrange(from as int, to as int) == trim_end(
            chars@.subrange(from as int, chars@.len() as int),
        ),
{
    let mut to: usize = chars.len();
    while to > from && space(chars[to - 1])
        invariant
            from <= to <= chars@.len(),
            trim_end(chars@.subrange(from as int, to as int)) == trim_end(
                chars@.subrange(from as int, chars@.len() as int),
            ),
        decreases to,
    {
        proof {
            assert(chars@.subrange(from as int, to as int).drop_last() =~= chars@.subrange(
                from as int,
                to - 1,
            ));
        }
        to = to - 1;
    }
    to
}

pub fn trim_end_text(s: &str) -> (t: String)
    ensures
        t@ == trim_end(s@),
{
    let chars = chars_of(s);
    let to = end_of_text(&chars, 0);
    proof {
        assert(chars@.subrange(0, chars@.len() as int) =~= s@);
    }
    text_of(&chars, 0, to)
}

pub fn trim_text(s: &str) -> (t: String)
    ensures
        t@ == trim(s@),
{
    let chars = chars_of(s);
    let mut from: usize = 0;
    proof {
        assert(chars@.subrange(0, chars@.len() as int) =~= s@);
    }
    while from < chars.len() && space(chars[from])
        invariant
            chars@ == s@,
            from <= chars@.len(),
            trim_start(chars@.subrange(from as int, chars@.len() as int)) == trim_start(s@),
        decreases chars@.len() - from,
    {
        proof {
            assert(chars@.subrange(from as int, chars@.len() as int).drop_first()
                =~= chars@.subrange(from + 1, chars@.len() as int));
        }
        from = from + 1;
    }
    let to = end_of_text(&chars, from);
    text_of(&chars, from, to)
}

// ---------------------------------------------------------------------------
// Letters and digits
// ---------------------------------------------------------------------------

pub open spec fn is_digit(c: char) -> bool {
    '0' <= c <= '9'
}

pub fn digit(c: char) -> (yes: bool)
    ensures
        yes == is_digit(c),
{
    '0' <= c && c <= '9'
}

/// Equal up to the case of ASCII letters.
pub open spec fn same_letter(a: char, b: char) -> bool {
    ||| a == b
    ||| 'A' <= a <= 'Z' && b as int == a as int + 32
    ||| 'A' <= b <= 'Z' && a as int == b as int + 32
}

/// Equal up to the case of ASCII letters, character by character.
pub open spec fn same_ignoring_case(a: Seq<char>, b: Seq<char>) -> bool {
    a.len() == b.len() && forall|i: int| 0 <= i < a.len() ==> #[trigger] same_letter(a[i], b[i])
}

pub fn equal_letters(a: char, b: char) -> (yes: bool)
    ensures
        yes == same_letter(a, b),
{
    let x: u32 = a as u32;
    let y: u32 = b as u32;
    a == b || ('A' <= a && a <= 'Z' && y == x + 32) || ('A' <= b && b <= 'Z' && x == y + 32)
}

pub fn equal_ignoring_case(a: &str, b: &str) -> (yes: bool)
    ensures
        yes == same_ignoring_case(a@, b@),
{
    let x = chars_of(a);
    let y = chars_of(b);
    if x.len() != y.len() {
        return false;
    }
    let mut i: usize = 0;
    while i < x.len()
        invariant
            x@ == a@,
            y@ == b@,
            x@.len() == y@.len(),
            i <= x@.len(),
            forall|k: int| 0 <= k < i ==> #[trigger] same_letter(a@[k], b@[k]),
        decreases x@.len() - i,
    {
        if !equal_letters(x[i], y[i]) {
            assert(!same_letter(a@[i as int], b@[i as int]));
            return false;
        }
        i = i + 1;
    }
    true
}

/// The digit for a value below sixteen, in lower case.
pub open spec fn hex_digit(v: int) -> char {
    "0123456789abcdef"@[v]
}

pub fn hex_char(v: u8) -> (c: char)
    requires
        v < 16,
    ensures
        c == hex_digit(v as int),
{
    proof {
        reveal_strlit("0123456789abcdef");
    }
    match v {
        0 => '0',
        1 => '1',
        2 => '2',
        3 => '3',
        4 => '4',
        5 => '5',
        6 => '6',
        7 => '7',
        8 => '8',
        9 => '9',
        10 => 'a',
        11 => 'b',
        12 => 'c',
        13 => 'd',
        14 => 'e',
        _ => 'f',
    }
}

/// The decimal notation of a number.
pub open spec fn decimal(n: nat) -> Seq<char>
    decreases n,
{
    if n < 10 {
        seq![hex_digit(n as int)]
    } else {
        decimal(n / 10).push(hex_digit((n % 10) as int))
    }
}

pub fn decimal_text(n: u64) -> (s: String)
    ensures
        s@ == decimal(n as nat),
    decreases n,
{
    if n < 10 {
        let mut s = String::new();
        s.push(hex_char(n as u8));
        proof {
            assert(s@ =~= decimal(n as nat));
        }
        s
    } else {
        let mut s = decimal_text(n / 10);
        s.push(hex_char((n % 10) as u8));
        s
    }
}

/// The decimal notation of a number that may be negative.
pub open spec fn signed_decimal(n: int) -> Seq<char> {
    if n < 0 {
        "-"@ + decimal((-n) as nat)
    } else {
        decimal(n as nat)
    }
}

pub fn signed_decimal_text(n: i64) -> (s: String)
    ensures
        s@ == signed_decimal(n as int),
{
    if n >= 0 {
        return decimal_text(n as u64);
    }
    let mut s = "-".to_owned();
    // The lowest number has no positive counterpart of its own type.
    let size: u64 = if n == i64::MIN {
        0x8000000000000000
    } else {
        (-n) as u64
    };
    s.push_str(decimal_text(size).as_str());
    s
}

/// Whether `s` is a non-empty run of digits.
pub open spec fn all_digits(s: Seq<char>) -> bool {
    s.len() > 0 && forall|i: int| 0 <= i < s.len() ==> is_digit(#[trigger] s[i])
}

/// The number a run of digits stands for.
pub open spec fn digits_value(s: Seq<char>) -> nat
    decreases s.len(),
{
    if s.len() == 0 {
        0
    } else {
        digits_value(s.drop_last()) * 10 + (s.last() as nat - '0' as nat) as nat
    }
}

pub proof fn lemma_digits_value_grows(s: Seq<char>, i: int)
    requires
        0 <= i <= s.len(),
    ensures
        digits_value(s.take(i)) <= digits_value(s),
    decreases s.len(),
{
    if i == s.len() {
        assert(s.take(i) =~= s);
    } else {
        lemma_digits_value_grows(s.drop_last(), i);
        assert(s.drop_last().take(i) =~= s.take(i));
    }
}

/// An unsigned number as `str::parse` reads it: an optional plus sign, then
/// digits, and nothing else.
pub open spec fn number(s: Seq<char>) -> Option<nat> {
    let body = if s.len() > 0 && s[0] == '+' {
        s.drop_first()
    } else {
        s
    };
    if all_digits(body) {
        Some(digits_value(body))
    } else {
        None
    }
}

/// The number `s` stands for, when it is one and at most `limit`.
pub fn parse_number(s: &str, limit: u64) -> (n: Option<u64>)
    ensures
        n == match number(s@) {
            Some(v) => if v <= limit {
                Some(v as u64)
            } else {
                None
            },
            None => None,
        },
{
    let chars = chars_of(s);
    let from: usize = if chars.len() > 0 && chars[0] == '+' {
        1
    } else {
        0
    };
    let ghost body = if s@.len() > 0 && s@[0] == '+' {
        s@.drop_first()
    } else {
        s@
    };
    proof {
        assert(body =~= chars@.skip(from as int));
    }
    if from == chars.len() {
        return None;
    }
    let mut i: usize = from;
    let mut value: u64 = 0;
    let mut too_large: bool = false;
    while i < chars.len()
        invariant
            chars@ == s@,
            from <= i <= chars@.len(),
            from <= 1,
            body == chars@.skip(from as int),
            number(s@) == (if all_digits(body) {
                Some(digits_value(body))
            } else {
                None
            }),
            forall|k: int| 0 <= k < i - from ==> is_digit(#[trigger] body[k]),
            too_large ==> digits_value(body.take(i - from)) > limit,
            !too_large ==> digits_value(body.take(i - from)) == value && value <= limit,
        decreases chars@.len() - i,
    {
        let c = chars[i];
        proof {
            assert(body[i - from] == c);
            assert(body.take(i - from + 1).drop_last() =~= body.take(i - from));
            assert(body.take(i - from + 1).last() == c);
        }
        if !digit(c) {
            assert(!all_digits(body));
            return None;
        }
        let d: u64 = (c as u32 - '0' as u32) as u64;
        if !too_large {
            if value > limit / 10 || d > limit || value * 10 > limit - d {
                proof {
                    assert(value * 10 + d > limit);
                }
                too_large = true;
            } else {
                value = value * 10 + d;
            }
        }
        i = i + 1;
    }
    proof {
        assert(body.take(i - from) =~= body);
        assert(all_digits(body));
    }
    if too_large {
        None
    } else {
        Some(value)
    }
}

/// The lower case of an ASCII letter.
pub open spec fn lower_letter(c: char) -> char {
    if 'A' <= c <= 'Z' {
        ((c as u32 + 32) as u32) as char
    } else {
        c
    }
}

pub open spec fn lower_ascii(s: Seq<char>) -> Seq<char> {
    s.map_values(|c: char| lower_letter(c))
}

/// `s` with its ASCII letters in lower case.
pub fn lower_ascii_text(s: &str) -> (t: String)
    ensures
        t@ == lower_ascii(s@),
{
    let chars = chars_of(s);
    let mut out = String::new();
    let mut i: usize = 0;
    proof {
        assert(out@ =~= lower_ascii(s@).take(0));
    }
    while i < chars.len()
        invariant
            chars@ == s@,
            i <= chars@.len(),
            out@ == lower_ascii(s@).take(i as int),
        decreases chars@.len() - i,
    {
        let c = chars[i];
        let l = lower_letter_char(c);
        out.push(l);
        proof {
            assert(lower_ascii(s@)[i as int] == l);
            assert(lower_ascii(s@).take(i + 1) =~= lower_ascii(s@).take(i as int).push(l));
        }
        i = i + 1;
    }
    proof {
        assert(lower_ascii(s@).take(i as int) =~= lower_ascii(s@));
    }
    out
}

fn lower_letter_char(c: char) -> (l: char)
    ensures
        l == lower_letter(c),
{
    if 'A' <= c && c <= 'Z' {
        ((c as u32 + 32) as u8) as char
    } else {
        c
    }
}

/// The pieces of a split that are not empty.
pub open spec fn fields(s: Seq<char>, sep: char) -> Seq<Seq<char>> {
    split(s, sep).filter(|p: Seq<char>| p.len() > 0)
}

/// The pieces of `s` between the occurrences of `sep`, without the empty ones.
pub fn field_texts(s: &str, sep: char) -> (out: Vec<String>)
    ensures
        texts(out@) == fields(s@, sep),
{
    let parts = split_text(s, sep);
    let ghost all = split(s@, sep);
    let ghost keep = |p: Seq<char>| p.len() > 0;
    let mut out: Vec<String> = Vec::new();
    let mut i: usize = 0;
    proof {
        reveal(Seq::filter);
        assert(texts(out@) =~= all.take(0).filter(keep));
    }
    while i < parts.len()
        invariant
            texts(parts@) == all,
            keep == (|p: Seq<char>| p.len() > 0),
            i <= parts@.len(),
            texts(out@) == all.take(i as int).filter(keep),
        decreases parts@.len() - i,
    {
        let ghost before = out@;
        proof {
            reveal(Seq::filter);
            assert(all.len() == parts@.len());
            assert(all.take(i + 1).drop_last() =~= all.take(i as int));
            assert(all.take(i + 1).last() == parts@[i as int]@);
        }
        if !parts[i].as_str().is_empty() {
            let t = parts[i].clone();
            out.push(t);
            proof {
                lemma_texts_push(before, t);
            }
        }
        i = i + 1;
    }
    proof {
        assert(all.take(i as int) =~= all);
    }
    out
}

/// The position of the first white space, or the length.
pub open spec fn find_space(s: Seq<char>) -> int
    decreases s.len(),
{
    if s.len() == 0 || is_space(s[0]) {
        0
    } else {
        1 + find_space(s.drop_first())
    }
}

pub proof fn lemma_find_space_is(s: Seq<char>, at: int)
    requires
        0 <= at <= s.len(),
        at < s.len() ==> is_space(s[at]),
        forall|k: int| 0 <= k < at ==> !is_space(#[trigger] s[k]),
    ensures
        find_space(s) == at,
    decreases s.len(),
{
    if s.len() > 0 && at > 0 {
        assert(!is_space(s[0]));
        let rest = s.drop_first();
        assert forall|k: int| 0 <= k < at - 1 implies !is_space(#[trigger] rest[k]) by {
            assert(rest[k] == s[k + 1]);
        }
        lemma_find_space_is(rest, at - 1);
    }
}

/// The first word of `s`, empty when there is none.
pub open spec fn first_word(s: Seq<char>) -> Seq<char> {
    let t = trim_start(s);
    t.take(find_space(t))
}

pub proof fn lemma_trim_start(s: Seq<char>, from: int)
    requires
        0 <= from <= s.len(),
        from < s.len() ==> !is_space(s[from]),
        forall|k: int| 0 <= k < from ==> is_space(#[trigger] s[k]),
    ensures
        trim_start(s) == s.skip(from),
    decreases s.len(),
{
    if from > 0 {
        assert(is_space(s[0]));
        let rest = s.drop_first();
        assert forall|k: int| 0 <= k < from - 1 implies is_space(#[trigger] rest[k]) by {
            assert(rest[k] == s[k + 1]);
        }
        lemma_trim_start(rest, from - 1);
        assert(rest.skip(from - 1) =~= s.skip(from));
    } else {
        assert(s.skip(0) =~= s);
    }
}

pub fn first_word_text(s: &str) -> (w: String)
    ensures
        w@ == first_word(s@),
{
    let chars = chars_of(s);
    let mut from: usize = 0;
    while from < chars.len() && space(chars[from])
        invariant
            chars@ == s@,
            from <= chars@.len(),
            forall|k: int| 0 <= k < from ==> is_space(#[trigger] s@[k]),
        decreases chars@.len() - from,
    {
        from = from + 1;
    }
    let mut to: usize = from;
    while to < chars.len() && !space(chars[to])
        invariant
            chars@ == s@,
            from <= to <= chars@.len(),
            forall|k: int| from <= k < to ==> !is_space(#[trigger] s@[k]),
        decreases chars@.len() - to,
    {
        to = to + 1;
    }
    let w = text_of(&chars, from, to);
    proof {
        lemma_trim_start(s@, from as int);
        let t = s@.skip(from as int);
        assert forall|k: int| 0 <= k < to - from implies !is_space(#[trigger] t[k]) by {
            assert(t[k] == s@[k + from]);
        }
        lemma_find_space_is(t, to - from);
        assert(w@ =~= t.take(to - from));
    }
    w
}

/// The first line of `s`, without its line break.
pub open spec fn first_line(s: Seq<char>) -> Seq<char> {
    let i = find_char(s, '\n');
    let line = s.take(i);
    if i < s.len() && line.len() > 0 && line.last() == '\r' {
        line.drop_last()
    } else {
        line
    }
}

pub fn first_line_text(s: &str) -> (l: String)
    ensures
        l@ == first_line(s@),
{
    let chars = chars_of(s);
    let at = position_from(&chars, '\n', 0);
    proof {
        assert(chars@.skip(0) =~= chars@);
    }
    if at < chars.len() && at > 0 && chars[at - 1] == '\r' {
        let l = text_of(&chars, 0, at - 1);
        proof {
            assert(l@ =~= s@.take(at as int).drop_last());
        }
        l
    } else {
        let l = text_of(&chars, 0, at);
        proof {
            assert(l@ =~= s@.take(at as int));
        }
        l
    }
}

// ---------------------------------------------------------------------------
// Sorting
// ---------------------------------------------------------------------------

/// Each string comes before or equals the next.
pub open spec fn sorted(list: Seq<Seq<char>>) -> bool {
    forall|i: int, j: int| 0 <= i < j < list.len() ==> text_le(#[trigger] list[i], #[trigger] list[j])
}

pub proof fn lemma_insert_keeps(list: Seq<Seq<char>>, at: int, t: Seq<char>)
    requires
        0 <= at <= list.len(),
    ensures
        list.insert(at, t).to_multiset() == list.to_multiset().insert(t),
{
    list.to_multiset_ensures();
    list.push(t).to_multiset_ensures();
    let moved = list.insert(at, t);
    assert(moved =~= list.take(at) + seq![t] + list.skip(at));
    assert(list =~= list.take(at) + list.skip(at));
    vstd::seq_lib::lemma_multiset_commutative(list.take(at), list.skip(at));
    vstd::seq_lib::lemma_multiset_commutative(list.take(at) + seq![t], list.skip(at));
    vstd::seq_lib::lemma_multiset_commutative(list.take(at), seq![t]);
    assert(seq![t] =~= Seq::<Seq<char>>::empty().push(t));
    Seq::<Seq<char>>::empty().to_multiset_ensures();
    assert(seq![t].to_multiset() =~= vstd::multiset::Multiset::empty().insert(t));
    assert(moved.to_multiset() =~= list.to_multiset().insert(t));
}

/// `t` behind every string of an ordered list that does not come after it.
pub open spec fn place_text(list: Seq<Seq<char>>, t: Seq<char>) -> Seq<Seq<char>>
    decreases list.len(),
{
    if list.len() == 0 || text_le(list.last(), t) {
        list.push(t)
    } else {
        place_text(list.drop_last(), t).push(list.last())
    }
}

/// The list in ascending order.
pub open spec fn sort_list(list: Seq<Seq<char>>) -> Seq<Seq<char>>
    decreases list.len(),
{
    if list.len() == 0 {
        Seq::empty()
    } else {
        place_text(sort_list(list.drop_last()), list.last())
    }
}

pub proof fn lemma_place_text(list: Seq<Seq<char>>, t: Seq<char>, at: int)
    requires
        0 <= at <= list.len(),
        at > 0 ==> text_le(list[at - 1], t),
        forall|k: int| at <= k < list.len() ==> !text_le(#[trigger] list[k], t),
    ensures
        place_text(list, t) == list.insert(at, t),
    decreases list.len(),
{
    if at == list.len() {
        assert(list.insert(at, t) =~= list.push(t));
    } else {
        lemma_place_text(list.drop_last(), t, at);
        assert(list.drop_last().insert(at, t).push(list.last()) =~= list.insert(at, t));
    }
}

/// The same strings in ascending order.
pub fn sort_texts(list: Vec<String>) -> (out: Vec<String>)
    ensures
        sorted(texts(out@)),
        texts(out@).to_multiset() == texts(list@).to_multiset(),
        texts(out@) == sort_list(texts(list@)),
        out@.len() == list@.len(),
{
    let mut out: Vec<String> = Vec::new();
    let mut i: usize = 0;
    proof {
        assert(list@.take(0) =~= Seq::<String>::empty());
        assert(texts(out@) =~= texts(list@.take(0)));
    }
    while i < list.len()
        invariant
            i <= list@.len(),
            out@.len() == i,
            sorted(texts(out@)),
            texts(out@).to_multiset() == texts(list@.take(i as int)).to_multiset(),
            texts(out@) == sort_list(texts(list@.take(i as int))),
        decreases list@.len() - i,
    {
        let t = list[i].clone();
        let mut at: usize = out.len();
        while at > 0 && !text_before(out[at - 1].as_str(), t.as_str())
            invariant
                at <= out@.len(),
                sorted(texts(out@)),
                forall|k: int| at <= k < out@.len() ==> !text_le((#[trigger] texts(out@)[k]), t@),
            decreases at,
        {
            at = at - 1;
        }
        let ghost before = texts(out@);
        let ghost placed = t@;
        proof {
            assert forall|i1: int, j1: int| 0 <= i1 < j1 < before.insert(at as int, placed).len() implies text_le(
                #[trigger] before.insert(at as int, placed)[i1],
                #[trigger] before.insert(at as int, placed)[j1],
            ) by {
                let all = before.insert(at as int, placed);
                if at > 0 {
                    assert(text_le(before[at - 1], placed));
                }
                if j1 < at || i1 > at {
                } else if j1 == at {
                    if i1 < at - 1 {
                        assert(text_le(before[i1], before[at - 1]));
                        lemma_text_le_transitive(before[i1], before[at - 1], placed);
                    }
                } else if i1 == at {
                    assert(!text_le(before[j1 - 1], placed));
                    lemma_text_le_total(before[j1 - 1], placed);
                } else {
                    assert(text_le(before[i1], before[j1 - 1]));
                }
            }
            lemma_insert_keeps(before, at as int, placed);
            lemma_place_text(before, placed, at as int);
            let taken = texts(list@.take(i as int));
            assert(texts(list@.take(i + 1)) =~= taken.push(placed));
            assert(taken.push(placed).drop_last() =~= taken);
            taken.to_multiset_ensures();
        }
        out.insert(at, t);
        proof {
            assert(texts(out@) =~= before.insert(at as int, placed));
        }
        i = i + 1;
    }
    proof {
        assert(list@.take(list@.len() as int) =~= list@);
    }
    out
}

/// Each string once.
pub open spec fn distinct(list: Seq<Seq<char>>) -> bool {
    forall|i: int, j: int| 0 <= i < j < list.len() ==> #[trigger] list[i] != #[trigger] list[j]
}

/// The strings of a list in ascending order, each once.
pub fn sorted_set(list: &Vec<String>) -> (out: Vec<String>)
    ensures
        sorted(texts(out@)),
        distinct(texts(out@)),
        forall|t: Seq<char>| texts(out@).contains(t) == texts(list@).contains(t),
{
    let mut once: Vec<String> = Vec::new();
    let mut i: usize = 0;
    while i < list.len()
        invariant
            i <= list@.len(),
            distinct(texts(once@)),
            forall|t: Seq<char>|
                texts(once@).contains(t) == texts(list@).take(i as int).contains(t),
        decreases list@.len() - i,
    {
        let ghost before = once@;
        let ghost had = texts(list@).take(i as int);
        let ghost now = texts(list@).take(i + 1);
        let ghost x = list@[i as int]@;
        proof {
            assert(now =~= had.push(x));
            assert forall|t: Seq<char>| now.contains(t) == (had.contains(t) || t == x) by {
                lemma_push_contains(had, x, t);
            }
        }
        if !listed(&once, list[i].as_str()) {
            let t = list[i].clone();
            once.push(t);
            proof {
                lemma_texts_push(before, t);
                assert forall|u: Seq<char>| texts(once@).contains(u) == now.contains(u) by {
                    lemma_push_contains(texts(before), x, u);
                }
                assert forall|a: int, b: int| 0 <= a < b < texts(once@).len() implies #[trigger] texts(
                    once@,
                )[a] != #[trigger] texts(once@)[b] by {
                    if b == before.len() {
                        assert(texts(before).contains(texts(before)[a]));
                    }
                }
            }
        }
        i = i + 1;
    }
    let ghost set = texts(once@);
    let out = sort_texts(once);
    proof {
        assert(texts(list@).take(i as int) =~= texts(list@));
        let done = texts(out@);
        set.to_multiset_ensures();
        done.to_multiset_ensures();
        assert forall|t: Seq<char>| done.contains(t) == set.contains(t) by {
            assert(done.contains(t) == (done.to_multiset().count(t) > 0));
            assert(set.contains(t) == (set.to_multiset().count(t) > 0));
        }
        assert(set.no_duplicates()) by {
            assert forall|a: int, b: int| 0 <= a < set.len() && 0 <= b < set.len() && a != b implies set[a]
                != set[b] by {
                if a < b {
                    assert(set[a] != set[b]);
                } else {
                    assert(set[b] != set[a]);
                }
            }
        }
        set.lemma_multiset_has_no_duplicates();
        assert forall|t: Seq<char>| done.to_multiset().count(t) <= 1 by {
            if set.to_multiset().contains(t) {
                assert(set.to_multiset().count(t) == 1);
            }
        }
        assert forall|a: int, b: int| 0 <= a < b < done.len() implies #[trigger] done[a]
            != #[trigger] done[b] by {
            if done[a] == done[b] {
                lemma_twice(done, a, b);
            }
        }
    }
    out
}

pub proof fn lemma_push_contains(list: Seq<Seq<char>>, t: Seq<char>, u: Seq<char>)
    ensures
        list.push(t).contains(u) == (list.contains(u) || t == u),
{
    if list.contains(u) {
        let i = choose|i: int| 0 <= i < list.len() && list[i] == u;
        assert(list.push(t)[i] == u);
    }
    if t == u {
        assert(list.push(t)[list.len() as int] == u);
    }
}

proof fn lemma_twice(list: Seq<Seq<char>>, a: int, b: int)
    requires
        0 <= a < b < list.len(),
        list[a] == list[b],
    ensures
        list.to_multiset().count(list[a]) >= 2,
{
    list.to_multiset_ensures();
    let rest = list.remove(b);
    rest.to_multiset_ensures();
    assert(rest[a] == list[a]);
    assert(rest.contains(list[a]));
    assert(list.remove(b).to_multiset() =~= list.to_multiset().remove(list[b]));
    assert(rest.to_multiset().count(list[a]) >= 1);
    assert(list.contains(list[b]));
}

} // verus!
