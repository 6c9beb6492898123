//! What holds of Chrome's window titles, however many segments they have and
//! whatever stands in them.
use vstd::prelude::*;

use crate::chrome;
use crate::sequences;
use crate::text;

verus! {

/// `s` is `p` and a rest.
pub open spec fn led_by(s: Seq<char>, p: Seq<char>) -> bool {
    p.len() <= s.len() && s.take(p.len() as int) == p
}

/// `s` is a rest and `p`.
pub open spec fn closed_by(s: Seq<char>, p: Seq<char>) -> bool {
    p.len() <= s.len() && s.skip(s.len() - p.len()) == p
}

proof fn lemma_led_and_closed(s: Seq<char>, p: Seq<char>)
    ensures
        text::begins(s, p) <==> led_by(s, p),
        text::ends(s, p) <==> closed_by(s, p),
{
    if p.len() <= s.len() {
        assert(s.subrange(0, p.len() as int) =~= s.take(p.len() as int));
        let n = s.len() - p.len();
        assert(s.subrange(n, n + p.len()) =~= s.skip(n));
    }
}

/// The five application names, and no others, are Chrome's.
pub proof fn law_chrome_names(owner: Seq<char>)
    ensures
        chrome::chrome_app(owner) <==> seq![
            "Google Chrome"@,
            "Google Chrome Beta"@,
            "Google Chrome Canary"@,
            "Google Chrome Dev"@,
            "Chromium"@,
        ].contains(owner),
{
    let names = seq![
        "Google Chrome"@,
        "Google Chrome Beta"@,
        "Google Chrome Canary"@,
        "Google Chrome Dev"@,
        "Chromium"@,
    ];
    assert(names[0] == "Google Chrome"@);
    assert(names[1] == "Google Chrome Beta"@);
    assert(names[2] == "Google Chrome Canary"@);
    assert(names[3] == "Google Chrome Dev"@);
    assert(names[4] == "Chromium"@);
}

/// What Accessibility says of a tab's state: a phrase at the very start, or an
/// amount of memory at the very end.
pub open spec fn tab_note(s: Seq<char>) -> bool {
    ||| led_by(s, "Part of group "@)
    ||| led_by(s, "High memory usage"@)
    ||| led_by(s, "Playing audio"@)
    ||| led_by(s, "Audio muted"@)
    ||| led_by(s, "Camera or microphone"@)
    ||| led_by(s, "Notification"@)
    ||| closed_by(s, " GB"@)
    ||| closed_by(s, " MB"@)
}

/// A segment is an annotation just where one of the phrases stands at its very
/// start or a unit of memory at its very end. One that merely holds them
/// elsewhere is none.
pub proof fn law_annotations(s: Seq<char>)
    ensures
        chrome::annotation(s) <==> tab_note(s),
{
    lemma_led_and_closed(s, "Part of group "@);
    lemma_led_and_closed(s, "High memory usage"@);
    lemma_led_and_closed(s, "Playing audio"@);
    lemma_led_and_closed(s, "Audio muted"@);
    lemma_led_and_closed(s, "Camera or microphone"@);
    lemma_led_and_closed(s, "Notification"@);
    lemma_led_and_closed(s, " GB"@);
    lemma_led_and_closed(s, " MB"@);
}

/// An amount of memory within a segment does not make it an annotation: what
/// stands behind the unit ends in none, and the segment begins with no phrase.
pub proof fn law_amounts_within_a_segment_stay(a: Seq<char>, b: Seq<char>)
    requires
        b.len() > 0,
        !closed_by(b, " GB"@),
        !closed_by(b, " MB"@),
        !led_by(a + " GB"@ + b, "Part of group "@),
        !led_by(a + " GB"@ + b, "High memory usage"@),
        !led_by(a + " GB"@ + b, "Playing audio"@),
        !led_by(a + " GB"@ + b, "Audio muted"@),
        !led_by(a + " GB"@ + b, "Camera or microphone"@),
        !led_by(a + " GB"@ + b, "Notification"@),
    ensures
        !chrome::annotation(a + " GB"@ + b),
{
    reveal_strlit(" GB");
    reveal_strlit(" MB");
    let s = a + " GB"@ + b;
    law_annotations(s);
    let end = s.skip(s.len() - 3);
    if b.len() >= 3 {
        assert(end =~= b.skip(b.len() - 3));
    } else if b.len() == 2 {
        assert(end[0] == 'B');
    } else {
        assert(end[0] == 'G');
    }
}

// ---- Segments ---------------------------------------------------------------

/// A dash between two spaces.
spec fn parted_by(dash: char) -> Seq<char> {
    seq![' ', dash, ' ']
}

proof fn lemma_no_straddling(a: Seq<char>, b: Seq<char>, dash: char, j: int)
    requires
        dash != ' ',
        !closed_by(a, seq![' ', dash]),
        0 <= j < a.len(),
    ensures
        text::occurs_at(a + parted_by(dash) + b, parted_by(dash), j) <==> text::occurs_at(
            a,
            parted_by(dash),
            j,
        ),
{
    let sep = parted_by(dash);
    let s = a + sep + b;
    let n = a.len() as int;
    if j + 3 <= n {
        assert(s.subrange(j, j + 3) =~= a.subrange(j, j + 3));
    } else if text::occurs_at(s, sep, j) {
        let found = s.subrange(j, j + 3);
        assert(found[0] == s[j] && found[1] == s[j + 1]);
        assert(sep[0] == ' ' && sep[1] == dash);
        if j == n - 1 {
            assert(s[n] == ' ');
        } else {
            assert(j == n - 2);
            assert(a.skip(n - 2) =~= seq![' ', dash]);
        }
    }
}

proof fn lemma_find_parted(a: Seq<char>, b: Seq<char>, dash: char, from: int)
    requires
        dash != ' ',
        !closed_by(a, seq![' ', dash]),
        0 <= from <= a.len(),
    ensures
        text::find_from(a + parted_by(dash) + b, parted_by(dash), from) == match text::find_from(
            a,
            parted_by(dash),
            from,
        ) {
            Some(i) => Some(i),
            None => Some(a.len() as int),
        },
    decreases a.len() - from,
{
    let sep = parted_by(dash);
    let s = a + sep + b;
    let n = a.len() as int;
    if from == n {
        assert(s.subrange(n, n + 3) =~= sep);
    } else {
        lemma_no_straddling(a, b, dash, from);
        if !text::occurs_at(a, sep, from) {
            lemma_find_parted(a, b, dash, from + 1);
            if from + 3 > n {
                text::lemma_find_from(a, sep, from);
                text::lemma_find_from(a, sep, from + 1);
            }
        }
    }
}

proof fn lemma_pieces_parted(a: Seq<char>, b: Seq<char>, dash: char, from: int)
    requires
        dash != ' ',
        !closed_by(a, seq![' ', dash]),
        0 <= from <= a.len(),
    ensures
        text::pieces_from(a + parted_by(dash) + b, parted_by(dash), from) == text::pieces_from(
            a,
            parted_by(dash),
            from,
        ) + text::pieces(b, parted_by(dash)),
    decreases a.len() - from,
{
    let sep = parted_by(dash);
    let s = a + sep + b;
    let n = a.len() as int;
    lemma_find_parted(a, b, dash, from);
    text::lemma_find_from(a, sep, from);
    match text::find_from(a, sep, from) {
        Some(i) => {
            lemma_pieces_parted(a, b, dash, i + 3);
            assert(s.subrange(from, i) =~= a.subrange(from, i));
            assert(text::pieces_from(s, sep, from) =~= text::pieces_from(a, sep, from)
                + text::pieces(b, sep));
        },
        None => {
            assert(s.subrange(from, n) =~= a.subrange(from, n));
            chrome::lemma_pieces_shift(a + sep, b, sep, 0);
        },
    }
}

proof fn lemma_flat_map_add(
    a: Seq<Seq<char>>,
    b: Seq<Seq<char>>,
    f: spec_fn(Seq<char>) -> Seq<Seq<char>>,
)
    ensures
        (a + b).flat_map(f) == a.flat_map(f) + b.flat_map(f),
    decreases b.len(),
{
    if b.len() == 0 {
        assert(a + b =~= a);
        assert(a.flat_map(f) + b.flat_map(f) =~= a.flat_map(f));
    } else {
        let init = b.drop_last();
        lemma_flat_map_add(a, init, f);
        assert(a + b =~= (a + init).push(b.last()));
        assert(b =~= init.push(b.last()));
        (a + init).lemma_flat_map_push(f, b.last());
        init.lemma_flat_map_push(f, b.last());
        assert((a + b).flat_map(f) =~= a.flat_map(f) + b.flat_map(f));
    }
}

proof fn lemma_flat_map_one(p: Seq<char>, f: spec_fn(Seq<char>) -> Seq<Seq<char>>)
    ensures
        seq![p].flat_map(f) == f(p),
{
    let none = Seq::<Seq<char>>::empty();
    assert(seq![p] =~= none.push(p));
    none.lemma_flat_map_push(f, p);
    assert(none.flat_map(f) =~= Seq::empty());
    assert(Seq::<Seq<char>>::empty() + f(p) =~= f(p));
}

/// " - " parts segments: the segments of a title with it are those before it
/// and those behind it.
pub proof fn law_a_dash_parts_segments(a: Seq<char>, b: Seq<char>)
    requires
        !closed_by(a, " -"@),
    ensures
        chrome::segments(a + " - "@ + b) == chrome::segments(a) + chrome::segments(b),
{
    reveal_strlit(" - ");
    reveal_strlit(" -");
    assert(" - "@ =~= parted_by('-'));
    assert(" -"@ =~= seq![' ', '-']);
    lemma_pieces_parted(a, b, '-', 0);
    let (x, y) = (text::pieces(a, " - "@), text::pieces(b, " - "@));
    lemma_flat_map_add(x, y, |p: Seq<char>| text::pieces(p, " – "@));
    chrome::lemma_tidy_add(chrome::cut_at_en_dash(x), chrome::cut_at_en_dash(y));
}

proof fn lemma_without(s: Seq<char>, sep: Seq<char>)
    requires
        !text::has(s, sep),
        sep.len() > 0,
    ensures
        text::pieces(s, sep) == seq![s],
{
    text::lemma_find_from(s, sep, 0);
    assert(s.subrange(0, s.len() as int) =~= s);
}

/// " – " parts segments just so.
pub proof fn law_an_en_dash_parts_segments(a: Seq<char>, b: Seq<char>)
    requires
        !text::has(a, " - "@),
        !text::has(b, " - "@),
        !text::has(a + " – "@ + b, " - "@),
        !closed_by(a, " –"@),
    ensures
        chrome::segments(a + " – "@ + b) == chrome::segments(a) + chrome::segments(b),
{
    reveal_strlit(" - ");
    reveal_strlit(" – ");
    reveal_strlit(" –");
    assert(" – "@ =~= parted_by('–'));
    assert(" –"@ =~= seq![' ', '–']);
    let f = |p: Seq<char>| text::pieces(p, " – "@);
    lemma_without(a, " - "@);
    lemma_without(b, " - "@);
    lemma_without(a + " – "@ + b, " - "@);
    lemma_flat_map_one(a, f);
    lemma_flat_map_one(b, f);
    lemma_flat_map_one(a + " – "@ + b, f);
    lemma_pieces_parted(a, b, '–', 0);
    chrome::lemma_tidy_add(text::pieces(a, " – "@), text::pieces(b, " – "@));
}

/// A text without a separator is one segment, without the white space round it;
/// white space alone is none.
pub proof fn law_one_segment(s: Seq<char>)
    requires
        !text::has(s, " - "@),
        !text::has(s, " – "@),
    ensures
        chrome::segments(s) == if text::trimmed(s).len() > 0 {
            seq![text::trimmed(s)]
        } else {
            Seq::empty()
        },
{
    reveal_strlit(" - ");
    reveal_strlit(" – ");
    lemma_without(s, " - "@);
    lemma_without(s, " – "@);
    lemma_flat_map_one(s, |p: Seq<char>| text::pieces(p, " – "@));
    chrome::lemma_tidy_one(s);
}

// ---- The tab's title --------------------------------------------------------

proof fn lemma_parts(full: Seq<char>, tabs: Seq<Seq<char>>, app: Seq<char>, after: Seq<Seq<char>>)
    requires
        chrome::segments(full) == tabs + seq![app] + after,
        !after.contains(app),
    ensures
        chrome::title_parts(full, app) == (
            chrome::tab_title(tabs, app),
            chrome::profile_of(after),
        ),
{
    let all = tabs + seq![app] + after;
    chrome::lemma_last_at(tabs, app, after);
    assert(all.take(tabs.len() as int) =~= tabs);
    assert(all.skip(tabs.len() as int + 1) =~= after);
}

/// The tab's title is all the segments before the last one that names the app,
/// in their order, where none of them is a note on the tab's state.
pub proof fn law_segments_before_the_app_are_the_title(
    full: Seq<char>,
    tabs: Seq<Seq<char>>,
    app: Seq<char>,
    after: Seq<Seq<char>>,
)
    requires
        chrome::segments(full) == tabs + seq![app] + after,
        !after.contains(app),
        tabs.len() > 0,
        forall|i: int| 0 <= i < tabs.len() ==> !tab_note(#[trigger] tabs[i]),
    ensures
        chrome::title_parts(full, app).0 == text::joined(tabs, " - "@),
{
    lemma_parts(full, tabs, app, after);
    assert forall|i: int| 0 <= i < tabs.len() implies !chrome::annotation(#[trigger] tabs[i]) by {
        law_annotations(tabs[i]);
    }
    sequences::lemma_filter_all(tabs, |s: Seq<char>| !chrome::annotation(s));
}

/// Where nothing, or only notes, stand before the app's name, it is the title.
pub proof fn law_notes_alone_leave_the_app(
    full: Seq<char>,
    tabs: Seq<Seq<char>>,
    app: Seq<char>,
    after: Seq<Seq<char>>,
)
    requires
        chrome::segments(full) == tabs + seq![app] + after,
        !after.contains(app),
        forall|i: int| 0 <= i < tabs.len() ==> tab_note(#[trigger] tabs[i]),
    ensures
        chrome::title_parts(full, app).0 == app,
{
    lemma_parts(full, tabs, app, after);
    let own = |s: Seq<char>| !chrome::annotation(s);
    if tabs.filter(own).len() > 0 {
        tabs.lemma_filter_pred(own, 0);
        let s = tabs.filter(own)[0];
        assert(tabs.filter(own).contains(s));
        tabs.lemma_filter_contains_rev(own, s);
        let i = choose|i: int| 0 <= i < tabs.len() && tabs[i] == s;
        law_annotations(tabs[i]);
    }
}

/// A note drops out of the title, wherever it stands before the app's name: the
/// rest is as it is without it.
pub proof fn law_notes_drop_out(
    full: Seq<char>,
    bare: Seq<char>,
    before: Seq<Seq<char>>,
    note: Seq<char>,
    behind: Seq<Seq<char>>,
    app: Seq<char>,
    after: Seq<Seq<char>>,
)
    requires
        chrome::segments(full) == before + seq![note] + behind + seq![app] + after,
        chrome::segments(bare) == before + behind + seq![app] + after,
        !after.contains(app),
        tab_note(note),
    ensures
        chrome::title_parts(full, app) == chrome::title_parts(bare, app),
{
    lemma_parts(full, before + seq![note] + behind, app, after);
    lemma_parts(bare, before + behind, app, after);
    law_annotations(note);
    let own = |s: Seq<char>| !chrome::annotation(s);
    Seq::filter_distributes_over_add(before + seq![note], behind, own);
    Seq::filter_distributes_over_add(before, seq![note], own);
    Seq::filter_distributes_over_add(before, behind, own);
    reveal_with_fuel(Seq::filter, 2);
    assert(seq![note].drop_last() =~= Seq::empty());
    assert(seq![note].filter(own) =~= Seq::empty());
    assert(before.filter(own) + Seq::empty() =~= before.filter(own));
}

// ---- The profile ------------------------------------------------------------

/// Nothing behind the app's name means no profile.
pub proof fn law_nothing_behind_means_no_profile(
    full: Seq<char>,
    tabs: Seq<Seq<char>>,
    app: Seq<char>,
)
    requires
        chrome::segments(full) == tabs.push(app),
    ensures
        chrome::title_parts(full, app).1 is None,
{
    let none = Seq::<Seq<char>>::empty();
    assert(tabs.push(app) =~= tabs + seq![app] + none);
    lemma_parts(full, tabs, app, none);
    text::lemma_rfind_from(Seq::empty(), " ("@, 0);
    reveal_strlit(" (");
}

/// What stands behind the app's name is the profile, whole, where it does not
/// end in a parenthesis or none opens in it.
pub proof fn law_what_stands_behind_is_the_profile(
    full: Seq<char>,
    tabs: Seq<Seq<char>>,
    app: Seq<char>,
    after: Seq<Seq<char>>,
)
    requires
        chrome::segments(full) == tabs + seq![app] + after,
        !after.contains(app),
        text::joined(after, " - "@).len() > 0,
        !closed_by(text::joined(after, " - "@), ")"@) || !text::has(
            text::joined(after, " - "@),
            " ("@,
        ),
    ensures
        chrome::title_parts(full, app).1 == Some(text::joined(after, " - "@)),
{
    let whole = text::joined(after, " - "@);
    lemma_parts(full, tabs, app, after);
    lemma_led_and_closed(whole, ")"@);
    text::lemma_rfind_from(whole, " ("@, whole.len() as int);
}

/// An email in parentheses is dropped from the profile; what stands before it
/// is left.
pub proof fn law_the_email_is_dropped_from_the_profile(
    full: Seq<char>,
    tabs: Seq<Seq<char>>,
    app: Seq<char>,
    after: Seq<Seq<char>>,
    name: Seq<char>,
    email: Seq<char>,
)
    requires
        chrome::segments(full) == tabs + seq![app] + after,
        !after.contains(app),
        text::joined(after, " - "@) == name + " ("@ + email + ")"@,
        !text::has(email, " ("@),
        name.len() > 0,
    ensures
        chrome::title_parts(full, app).1 == Some(name),
{
    lemma_parts(full, tabs, app, after);
    chrome::law_email_is_dropped(name, email);
}

} // verus!
