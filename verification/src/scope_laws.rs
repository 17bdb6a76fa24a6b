//! A scope is shown as it was written.

use vstd::prelude::*;

use crate::client_ipc::{last_char, line_number, scope_of, scope_parts, scopes_of, slashed};
use crate::error::ErrorView;
use crate::model::ScopeView;
use crate::path::{first_fault, lemma_char_fault, path_fault, valid_path};
use crate::text::{
    all_digits, decimal, digits_value, find_char, hex_digit, is_space, lemma_find_char, number,
    split, trim, trim_end, trim_start,
};

verus! {

/// A line range written as `path:START-END` is shown in the same words once it
/// has been parsed, and a stale one with that remark behind them.
pub proof fn a_line_range_is_shown_as_written(p: Seq<char>, a: u32, b: u32)
    requires
        valid_path(p),
        trim(p) == p,
        1 <= a <= b,
    ensures
        ({
            let text = p + ":"@ + decimal(a as nat) + "-"@ + decimal(b as nat);
            let scope = ScopeView {
                path: p,
                line_start: Some(a),
                line_end: Some(b),
                declared_against: None,
                stale: false,
            };
            &&& scopes_of(seq![text]) == Ok::<Seq<ScopeView>, ErrorView>(seq![scope])
            &&& scope.form() == text
            &&& (ScopeView { stale: true, ..scope }).form() == text + " (stale, file-level)"@
        }),
{
    let x = decimal(a as nat);
    let y = decimal(b as nat);
    let text = p + ":"@ + x + "-"@ + y;
    let range = x + "-"@ + y;
    reveal_strlit(":");
    reveal_strlit("-");
    lemma_decimal(a as nat);
    lemma_decimal(b as nat);
    lemma_plain_path(p);
    lemma_ends(p);
    // The argument is taken as it is.
    assert(text[0] == p[0]);
    assert(text.last() == y.last());
    lemma_trimmed(text);
    // The path ends at the last colon.
    let at = p.len() as int;
    assert(text[at] == ':');
    assert(text.skip(at + 1) =~= range);
    assert forall|k: int| at < k < text.len() implies text[k] != ':' by {
        assert(text[k] == range[k - at - 1]);
        if k - at - 1 < x.len() {
            assert(range[k - at - 1] == x[k - at - 1]);
        } else if k - at - 1 > x.len() {
            assert(range[k - at - 1] == y[k - at - 2 - x.len()]);
        }
    }
    lemma_last_char(text, ':', at);
    assert(text.take(at) =~= p);
    assert(range[x.len() as int] == '-');
    assert(range[0] == x[0]);
    assert(scope_parts(text) == (p, Some(range)));
    // The range is cut at its only hyphen.
    lemma_find_char(range, '-');
    let cut = find_char(range, '-');
    assert(cut == x.len()) by {
        if cut < x.len() {
            assert(range[cut] == x[cut]);
        }
    }
    assert(range.take(cut) =~= x);
    assert(range.skip(cut + 1) =~= y);
    lemma_line(a);
    lemma_line(b);
    lemma_one(text);
}

/// A path without a line range is a scope of the whole file, shown as the
/// path.
pub proof fn a_file_scope_is_shown_as_written(p: Seq<char>)
    requires
        valid_path(p),
        trim(p) == p,
    ensures
        ({
            let scope = ScopeView {
                path: p,
                line_start: None,
                line_end: None,
                declared_against: None,
                stale: false,
            };
            &&& scopes_of(seq![p]) == Ok::<Seq<ScopeView>, ErrorView>(seq![scope])
            &&& scope.form() == p
        }),
{
    lemma_plain_path(p);
    lemma_no_last_char(p, ':');
    assert(scope_parts(p) == (p, None::<Seq<char>>));
    lemma_one(p);
}

/// A scope that lacks either line is shown as its path alone, stale or not.
pub proof fn a_scope_without_lines_shows_its_path(scope: ScopeView)
    requires
        scope.line_start is None || scope.line_end is None,
    ensures
        scope.form() == scope.path,
{
}

proof fn lemma_one(text: Seq<char>)
    requires
        trim(text) == text,
        text.len() > 0,
    ensures
        scopes_of(seq![text]) == match scope_of(text) {
            Ok(s) => Ok::<Seq<ScopeView>, ErrorView>(seq![s]),
            Err(e) => Err::<Seq<ScopeView>, ErrorView>(e),
        },
{
    let list = seq![text];
    assert(list.drop_last() =~= Seq::<Seq<char>>::empty());
    assert(list.last() == text);
    assert(scopes_of(list.drop_last()) == Ok::<Seq<ScopeView>, ErrorView>(Seq::empty()));
    if let Ok(s) = scope_of(text) {
        assert(Seq::<ScopeView>::empty().push(s) =~= seq![s]);
    }
}

proof fn lemma_line(n: u32)
    ensures
        line_number(decimal(n as nat)) == Some(n),
{
    let s = decimal(n as nat);
    lemma_decimal(n as nat);
    lemma_trimmed(s);
    assert(s[0] != '+');
    assert(number(s) == Some(n as nat));
}

/// A number's notation is a run of digits that stands for it.
proof fn lemma_decimal(n: nat)
    ensures
        all_digits(decimal(n)),
        digits_value(decimal(n)) == n,
        !is_space(decimal(n)[0]),
        !is_space(decimal(n).last()),
    decreases n,
{
    lemma_decimal_digit((n % 10) as int);
    reveal_with_fuel(digits_value, 2);
    if n >= 10 {
        lemma_decimal(n / 10);
        let before = decimal(n / 10);
        let s = before.push(hex_digit((n % 10) as int));
        assert(s.drop_last() =~= before);
        assert(decimal(n) == s);
    } else {
        let s = seq![hex_digit(n as int)];
        assert(s.drop_last() =~= Seq::<char>::empty());
    }
}

proof fn lemma_decimal_digit(v: int)
    requires
        0 <= v < 10,
    ensures
        hex_digit(v) as u32 == 48 + v,
        '0' <= hex_digit(v) <= '9',
{
    reveal_strlit("0123456789abcdef");
    assert(v == 0 || v == 1 || v == 2 || v == 3 || v == 4 || v == 5 || v == 6 || v == 7 || v == 8 || v
        == 9);
}

proof fn lemma_trimmed(s: Seq<char>)
    requires
        s.len() > 0,
        !is_space(s[0]),
        !is_space(s.last()),
    ensures
        trim(s) == s,
{
}

proof fn lemma_trim_shortens(s: Seq<char>)
    ensures
        trim_start(s).len() <= s.len(),
        trim_end(s).len() <= s.len(),
    decreases s.len(),
{
    if s.len() > 0 {
        lemma_trim_shortens(s.drop_first());
        lemma_trim_shortens(s.drop_last());
    }
}

proof fn lemma_ends(s: Seq<char>)
    requires
        s.len() > 0,
        trim(s) == s,
    ensures
        !is_space(s[0]),
{
    lemma_trim_shortens(s.drop_first());
    lemma_trim_shortens(trim_start(s));
}

proof fn lemma_last_char(s: Seq<char>, c: char, at: int)
    requires
        0 <= at < s.len(),
        s[at] == c,
        forall|k: int| at < k < s.len() ==> s[k] != c,
    ensures
        last_char(s, c) == at,
    decreases s.len(),
{
    if at < s.len() - 1 {
        assert(s[s.len() - 1] != c);
        lemma_last_char(s.drop_last(), c, at);
    }
}

proof fn lemma_no_last_char(s: Seq<char>, c: char)
    requires
        forall|k: int| 0 <= k < s.len() ==> s[k] != c,
    ensures
        last_char(s, c) == -1,
    decreases s.len(),
{
    if s.len() > 0 {
        assert(s[s.len() - 1] != c);
        lemma_no_last_char(s.drop_last(), c);
    }
}

/// A valid path holds neither a backslash nor a colon.
proof fn lemma_plain_path(p: Seq<char>)
    requires
        valid_path(p),
    ensures
        p.len() > 0,
        slashed(p) == p,
        forall|k: int| 0 <= k < p.len() ==> p[k] != ':',
{
    assert(path_fault(p) is None);
    lemma_plain_parts(p);
    assert forall|k: int| 0 <= k < p.len() implies p[k] != ':' && slashed(p)[k] == p[k] by {
        assert(is_plain(p[k]));
    }
    assert(slashed(p) =~= p);
}

spec fn is_plain(c: char) -> bool {
    c != ':' && c != '\\'
}

proof fn lemma_plain_parts(s: Seq<char>)
    requires
        first_fault(split(s, '/')) is None,
    ensures
        forall|k: int| 0 <= k < s.len() ==> is_plain(#[trigger] s[k]),
    decreases s.len(),
{
    let i = find_char(s, '/');
    let parts = split(s, '/');
    lemma_find_char(s, '/');
    if i < s.len() {
        let rest = split(s.skip(i + 1), '/');
        assert(parts.drop_first() =~= rest);
        assert(parts[0] == s.take(i));
        lemma_plain_parts(s.skip(i + 1));
        lemma_char_fault(s.take(i));
        assert forall|k: int| 0 <= k < s.len() implies is_plain(#[trigger] s[k]) by {
            if k < i {
                assert(s.take(i)[k] == s[k]);
            } else if k > i {
                assert(s.skip(i + 1)[k - i - 1] == s[k]);
            }
        }
    } else {
        assert(parts[0] == s);
        lemma_char_fault(s);
    }
}

} // verus!
