//! What the helpers on text guarantee: what trimming takes away, what sorting
//! keeps, which numbers a text stands for.

use vstd::prelude::*;

use crate::text::{
    all_digits, decimal, digits_value, fields, find_char, find_space, first_line, first_word,
    hex_digit, is_space, lemma_find_char, lower_ascii, number, place_text, same_ignoring_case,
    same_letter, signed_decimal, sort_list, sorted, split, text_le, trim, trim_end, trim_start,
};
use crate::text::{lemma_text_le_total, lemma_text_le_transitive};

verus! {

/// Nothing but white space stands in a text.
pub open spec fn is_blank(s: Seq<char>) -> bool {
    forall|k: int| 0 <= k < s.len() ==> is_space(#[trigger] s[k])
}

/// The blanks of ASCII are white space, and what prints is not.
pub proof fn white_space_is_what_does_not_print(c: char)
    requires
        (c as u32) < 0x80,
    ensures
        is_space(c) == (c == ' ' || c == '\t' || c == '\n' || c == '\u{b}' || c == '\u{c}' || c
            == '\r'),
{
}

/// Trimming the end takes away white space and nothing else, and leaves none
/// there.
pub proof fn trimming_the_end_takes_blanks_only(s: Seq<char>)
    ensures
        trim_end(s).len() <= s.len(),
        s.take(trim_end(s).len() as int) == trim_end(s),
        is_blank(s.skip(trim_end(s).len() as int)),
        trim_end(s).len() > 0 ==> !is_space(trim_end(s).last()),
    decreases s.len(),
{
    if s.len() > 0 && is_space(s.last()) {
        let front = s.drop_last();
        let t = trim_end(front);
        trimming_the_end_takes_blanks_only(front);
        assert(s.take(t.len() as int) =~= front.take(t.len() as int));
        assert forall|k: int| 0 <= k < s.skip(t.len() as int).len() implies is_space(
            #[trigger] s.skip(t.len() as int)[k],
        ) by {
            if k < front.len() - t.len() {
                assert(front.skip(t.len() as int)[k] == s.skip(t.len() as int)[k]);
            } else {
                assert(s.skip(t.len() as int)[k] == s[s.len() - 1]);
            }
        }
    } else {
        assert(s.take(s.len() as int) =~= s);
    }
}

/// Trimming the start takes away white space and nothing else, and leaves none
/// there.
pub proof fn trimming_the_start_takes_blanks_only(s: Seq<char>)
    ensures
        ({
            let cut = s.len() - trim_start(s).len();
            &&& cut >= 0
            &&& s.skip(cut) == trim_start(s)
            &&& is_blank(s.take(cut))
            &&& trim_start(s).len() > 0 ==> !is_space(trim_start(s)[0])
        }),
    decreases s.len(),
{
    if s.len() > 0 && is_space(s[0]) {
        let rest = s.drop_first();
        trimming_the_start_takes_blanks_only(rest);
        let cut = s.len() - trim_start(s).len();
        assert(s.skip(cut) =~= rest.skip(cut - 1));
        assert forall|k: int| 0 <= k < s.take(cut).len() implies is_space(
            #[trigger] s.take(cut)[k],
        ) by {
            if k > 0 {
                assert(rest.take(cut - 1)[k - 1] == s.take(cut)[k]);
            }
        }
    } else {
        assert(s.skip(0) =~= s);
    }
}

/// A trimmed text is a piece of the text with nothing but white space around
/// it, and no white space at either end.
pub proof fn trimming_takes_blanks_only(s: Seq<char>)
    ensures
        exists|from: int, to: int|
            0 <= from <= to <= s.len() && #[trigger] s.subrange(from, to) == trim(s) && is_blank(
                s.take(from),
            ) && is_blank(s.skip(to)),
        trim(s).len() > 0 ==> !is_space(trim(s)[0]) && !is_space(trim(s).last()),
        (trim(s).len() == 0) == is_blank(s),
{
    trimming_the_start_takes_blanks_only(s);
    let t = trim_start(s);
    trimming_the_end_takes_blanks_only(t);
    let from = s.len() - t.len();
    let to = from + trim_end(t).len();
    assert(s.subrange(from, to) =~= trim(s)) by {
        assert(t.take(trim_end(t).len() as int) =~= s.subrange(from, to));
    }
    assert(is_blank(s.skip(to))) by {
        assert forall|k: int| 0 <= k < s.skip(to).len() implies is_space(#[trigger] s.skip(to)[k]) by {
            assert(t.skip(trim_end(t).len() as int)[k] == s.skip(to)[k]);
        }
    }
    if trim(s).len() > 0 {
        assert(trim(s)[0] == t[0]);
    } else {
        assert forall|k: int| 0 <= k < s.len() implies is_space(#[trigger] s[k]) by {
            if k < from {
                assert(s.take(from)[k] == s[k]);
            } else {
                assert(s.skip(to)[k - to] == s[k]);
            }
        }
    }
    if is_blank(s) && trim(s).len() > 0 {
        assert(s.subrange(from, to)[0] == s[from]);
    }
}

proof fn lemma_place(list: Seq<Seq<char>>, t: Seq<char>)
    ensures
        place_text(list, t).len() == list.len() + 1,
        forall|u: Seq<char>| #[trigger]
            place_text(list, t).contains(u) == (list.contains(u) || u == t),
        sorted(list) ==> sorted(place_text(list, t)),
    decreases list.len(),
{
    let all = place_text(list, t);
    if list.len() == 0 || text_le(list.last(), t) {
        assert forall|u: Seq<char>| #[trigger] all.contains(u) == (list.contains(u) || u == t) by {
            crate::text::lemma_push_contains(list, t, u);
        }
        if sorted(list) {
            assert forall|i: int, j: int| 0 <= i < j < all.len() implies text_le(
                #[trigger] all[i],
                #[trigger] all[j],
            ) by {
                if j == list.len() && i < list.len() - 1 {
                    assert(text_le(list[i], list[list.len() - 1]));
                    lemma_text_le_transitive(list[i], list[list.len() - 1], t);
                }
            }
        }
    } else {
        let front = list.drop_last();
        let last = list.last();
        let placed = place_text(front, t);
        lemma_place(front, t);
        assert(list =~= front.push(last));
        assert forall|u: Seq<char>| #[trigger] all.contains(u) == (list.contains(u) || u == t) by {
            crate::text::lemma_push_contains(placed, last, u);
            crate::text::lemma_push_contains(front, last, u);
            assert(placed.contains(u) == (front.contains(u) || u == t));
        }
        if sorted(list) {
            lemma_text_le_total(last, t);
            assert forall|i: int, j: int| 0 <= i < j < front.len() implies text_le(
                #[trigger] front[i],
                #[trigger] front[j],
            ) by {
                assert(text_le(list[i], list[j]));
            }
            assert forall|i: int, j: int| 0 <= i < j < all.len() implies text_le(
                #[trigger] all[i],
                #[trigger] all[j],
            ) by {
                if j == placed.len() {
                    assert(placed.contains(placed[i]));
                    if placed[i] != t {
                        assert(front.contains(placed[i]));
                        let k = choose|k: int| 0 <= k < front.len() && front[k] == placed[i];
                        assert(text_le(list[k], list[list.len() - 1]));
                    }
                }
            }
        }
    }
}

/// A sorted list holds the same strings, as many, in ascending order.
pub proof fn sorting_keeps_every_string(list: Seq<Seq<char>>)
    ensures
        sorted(sort_list(list)),
        sort_list(list).len() == list.len(),
        forall|u: Seq<char>| #[trigger] sort_list(list).contains(u) == list.contains(u),
        crate::text::distinct(list) ==> crate::text::distinct(sort_list(list)),
    decreases list.len(),
{
    if list.len() > 0 {
        let front = list.drop_last();
        sorting_keeps_every_string(front);
        lemma_place(sort_list(front), list.last());
        assert(list =~= front.push(list.last()));
        assert forall|u: Seq<char>| #[trigger] sort_list(list).contains(u) == list.contains(u) by {
            crate::text::lemma_push_contains(front, list.last(), u);
            assert(sort_list(front).contains(u) == front.contains(u));
        }
        if crate::text::distinct(list) {
            assert forall|i: int, j: int| 0 <= i < j < front.len() implies #[trigger] front[i]
                != #[trigger] front[j] by {
                assert(list[i] != list[j]);
            }
            if sort_list(front).contains(list.last()) {
                assert(front.contains(list.last()));
                let k = choose|k: int| 0 <= k < front.len() && front[k] == list.last();
                assert(list[k] != list[list.len() - 1]);
            }
            lemma_place_distinct(sort_list(front), list.last());
        }
    }
}

proof fn lemma_place_distinct(list: Seq<Seq<char>>, t: Seq<char>)
    requires
        crate::text::distinct(list),
        !list.contains(t),
    ensures
        crate::text::distinct(place_text(list, t)),
    decreases list.len(),
{
    let all = place_text(list, t);
    if list.len() == 0 || text_le(list.last(), t) {
        assert forall|i: int, j: int| 0 <= i < j < all.len() implies #[trigger] all[i]
            != #[trigger] all[j] by {
            if j == list.len() {
                assert(list.contains(list[i]));
            }
        }
    } else {
        let front = list.drop_last();
        let last = list.last();
        assert forall|i: int, j: int| 0 <= i < j < front.len() implies #[trigger] front[i]
            != #[trigger] front[j] by {
            assert(list[i] != list[j]);
        }
        if front.contains(t) {
            let k = choose|k: int| 0 <= k < front.len() && front[k] == t;
            assert(list[k] == t);
        }
        lemma_place_distinct(front, t);
        lemma_place(front, t);
        let placed = place_text(front, t);
        assert(list[list.len() - 1] == last);
        assert(list.contains(last));
        assert forall|i: int, j: int| 0 <= i < j < all.len() implies #[trigger] all[i]
            != #[trigger] all[j] by {
            if j == placed.len() && placed[i] == last {
                assert(placed.contains(last));
                assert(front.contains(last));
                let k = choose|k: int| 0 <= k < front.len() && front[k] == last;
                assert(list[k] != list[list.len() - 1]);
            }
        }
    }
}

/// A number is read back from its notation, with or without a plus sign.
pub proof fn a_number_reads_back(n: nat)
    ensures
        number(decimal(n)) == Some(n),
        number(seq!['+'] + decimal(n)) == Some(n),
        forall|i: int| 0 <= i < decimal(n).len() ==> '0' <= #[trigger] decimal(n)[i] <= '9',
        decimal(n).len() > 0,
        n > 0 ==> decimal(n)[0] != '0',
        signed_decimal(n as int) == decimal(n),
        n > 0 ==> signed_decimal(-(n as int)) == seq!['-'] + decimal(n),
{
    lemma_decimal(n);
    assert(decimal(n)[0] != '+');
    assert((seq!['+'] + decimal(n)).drop_first() =~= decimal(n));
    reveal_strlit("-");
    assert("-"@ =~= seq!['-']);
}

proof fn lemma_decimal(n: nat)
    ensures
        all_digits(decimal(n)),
        digits_value(decimal(n)) == n,
        n > 0 ==> decimal(n)[0] != '0',
    decreases n,
{
    reveal_strlit("0123456789abcdef");
    let v = (n % 10) as int;
    assert(v == 0 || v == 1 || v == 2 || v == 3 || v == 4 || v == 5 || v == 6 || v == 7 || v == 8 || v
        == 9);
    assert(hex_digit(v) as u32 == 48 + v);
    reveal_with_fuel(digits_value, 2);
    if n >= 10 {
        lemma_decimal(n / 10);
        let before = decimal(n / 10);
        assert(before.push(hex_digit(v)).drop_last() =~= before);
    } else {
        assert(seq![hex_digit(n as int)].drop_last() =~= Seq::<char>::empty());
    }
}

/// Two texts are equal up to case exactly when their lower cases are equal, and
/// lower case changes capital letters of ASCII only.
pub proof fn case_is_a_matter_of_capitals(a: Seq<char>, b: Seq<char>)
    ensures
        same_ignoring_case(a, b) == (lower_ascii(a) == lower_ascii(b)),
        lower_ascii(a).len() == a.len(),
        forall|i: int|
            0 <= i < a.len() ==> {
                let c = #[trigger] lower_ascii(a)[i];
                if 'A' <= a[i] && a[i] <= 'Z' {
                    c as u32 == a[i] as u32 + 32
                } else {
                    c == a[i]
                }
            },
{
    let x = lower_ascii(a);
    let y = lower_ascii(b);
    assert forall|i: int| 0 <= i < a.len() && i < b.len() implies (x[i] == y[i]) == same_letter(
        a[i],
        b[i],
    ) by {
    }
    if same_ignoring_case(a, b) {
        assert forall|i: int| 0 <= i < x.len() implies x[i] == y[i] by {
            assert(same_letter(a[i], b[i]));
        }
        assert(x =~= y);
    }
    if x == y {
        assert(a.len() == x.len() && b.len() == y.len());
        assert forall|i: int| 0 <= i < a.len() implies #[trigger] same_letter(a[i], b[i]) by {
            assert(x[i] == y[i]);
        }
    }
}

/// The fields of a text are its pieces between separators that hold anything.
pub proof fn fields_are_the_pieces_that_hold_anything(s: Seq<char>, sep: char, p: Seq<char>)
    ensures
        fields(s, sep).contains(p) == (p.len() > 0 && split(s, sep).contains(p)),
{
    let keep = |q: Seq<char>| q.len() > 0;
    let all = split(s, sep);
    if fields(s, sep).contains(p) {
        let i = choose|i: int| 0 <= i < fields(s, sep).len() && fields(s, sep)[i] == p;
        all.lemma_filter_pred(keep, i);
        all.lemma_filter_contains_rev(keep, p);
    }
    if p.len() > 0 && all.contains(p) {
        let i = choose|i: int| 0 <= i < all.len() && all[i] == p;
        all.lemma_filter_contains(keep, i);
    }
}

/// The first word holds no white space and ends where the text's first run
/// without any does.
pub proof fn the_first_word_is_the_first_run(s: Seq<char>)
    ensures
        ({
            let w = first_word(s);
            let t = trim_start(s);
            &&& w.len() <= t.len()
            &&& t.take(w.len() as int) == w
            &&& forall|k: int| 0 <= k < w.len() ==> !is_space(#[trigger] w[k])
            &&& w.len() < t.len() ==> is_space(t[w.len() as int])
            &&& (w.len() == 0) == is_blank(s)
        }),
{
    let t = trim_start(s);
    lemma_find_space(t);
    trimming_the_start_takes_blanks_only(s);
    assert(t.take(find_space(t)) =~= first_word(s));
    if t.len() > 0 {
        assert(s.skip(s.len() - t.len())[0] == t[0]);
        if is_blank(s) {
            assert(is_space(s[s.len() - t.len()]));
        }
    } else {
        assert(s.take(s.len() as int) =~= s);
    }
}

proof fn lemma_find_space(s: Seq<char>)
    ensures
        0 <= find_space(s) <= s.len(),
        forall|k: int| 0 <= k < find_space(s) ==> !is_space(#[trigger] s[k]),
        find_space(s) < s.len() ==> is_space(s[find_space(s)]),
    decreases s.len(),
{
    if s.len() > 0 && !is_space(s[0]) {
        lemma_find_space(s.drop_first());
        assert forall|k: int| 0 <= k < find_space(s) implies !is_space(#[trigger] s[k]) by {
            if k > 0 {
                assert(s.drop_first()[k - 1] == s[k]);
            }
        }
    }
}

/// The first line is what stands before the first line break, without the
/// carriage return of one.
pub proof fn the_first_line_ends_at_the_first_break(s: Seq<char>)
    ensures
        ({
            let l = first_line(s);
            &&& l.len() <= s.len()
            &&& s.take(l.len() as int) == l
            &&& forall|k: int| 0 <= k < l.len() ==> #[trigger] l[k] != '\n'
            &&& l.len() < s.len() ==> s[l.len() as int] == '\n' || s[l.len() as int] == '\r' && l.len()
                + 1 < s.len() && s[(l.len() + 1) as int] == '\n'
        }),
{
    lemma_find_char(s, '\n');
    let i = find_char(s, '\n');
    assert(s.take(first_line(s).len() as int) =~= first_line(s));
}

} // verus!
