//! Google Chrome specifics: recognising Chrome processes and parsing the
//! profile out of window titles (`Tab title - Google Chrome - Profile (email)`).
use vstd::prelude::*;

use crate::text;
use crate::text_laws;

verus! {

/// The application names that are managed. Helper processes ("Google Chrome
/// Helper (Renderer)") are deliberately left out.
pub open spec fn chrome_app(owner: Seq<char>) -> bool {
    ||| owner == "Google Chrome"@
    ||| owner == "Google Chrome Beta"@
    ||| owner == "Google Chrome Canary"@
    ||| owner == "Google Chrome Dev"@
    ||| owner == "Chromium"@
}

/// Whether `owner` is one of the managed application names.
pub fn is_chrome(owner: &str) -> (r: bool)
    ensures
        r == chrome_app(owner@),
{
    text::same(owner, "Google Chrome") || text::same(owner, "Google Chrome Beta") || text::same(
        owner,
        "Google Chrome Canary",
    ) || text::same(owner, "Google Chrome Dev") || text::same(owner, "Chromium")
}

/// A title segment that Accessibility adds about the tab's state.
pub open spec fn annotation(segment: Seq<char>) -> bool {
    ||| text::begins(segment, "Part of group "@)
    ||| text::begins(segment, "High memory usage"@)
    ||| text::begins(segment, "Playing audio"@)
    ||| text::begins(segment, "Audio muted"@)
    ||| text::begins(segment, "Camera or microphone"@)
    ||| text::begins(segment, "Notification"@)
    ||| text::ends(segment, " GB"@)
    ||| text::ends(segment, " MB"@)
}

/// Accessibility appends tab annotations to the window title that the visible
/// title bar does not show.
pub fn is_annotation(segment: &str) -> (r: bool)
    ensures
        r == annotation(segment@),
{
    text::starts_with(segment, "Part of group ") || text::starts_with(segment, "High memory usage")
        || text::starts_with(segment, "Playing audio") || text::starts_with(segment, "Audio muted")
        || text::starts_with(segment, "Camera or microphone") || text::starts_with(
        segment,
        "Notification",
    ) || text::ends_with(segment, " GB") || text::ends_with(segment, " MB")
}

/// `parts` without the white space round each, and without those that are
/// then empty.
pub open spec fn tidy(parts: Seq<Seq<char>>) -> Seq<Seq<char>> {
    parts.map_values(|p: Seq<char>| text::trimmed(p)).filter(|p: Seq<char>| p.len() > 0)
}

/// Each of `parts` cut at every " – ".
pub open spec fn cut_at_en_dash(parts: Seq<Seq<char>>) -> Seq<Seq<char>> {
    parts.flat_map(|p: Seq<char>| text::pieces(p, " – "@))
}

/// The segments of a title: what stands between " - " or " – ".
pub open spec fn segments(full: Seq<char>) -> Seq<Seq<char>> {
    tidy(cut_at_en_dash(text::pieces(full, " - "@)))
}

/// The position of the last of `parts` that is `app`.
pub open spec fn last_at(parts: Seq<Seq<char>>, app: Seq<char>) -> Option<int>
    decreases parts.len(),
{
    if parts.len() == 0 {
        None
    } else if parts.last() == app {
        Some(parts.len() - 1)
    } else {
        last_at(parts.drop_last(), app)
    }
}

/// The tab's own title: the segments before the app's, without annotations;
/// the app's name where nothing is left.
pub open spec fn tab_title(before: Seq<Seq<char>>, app: Seq<char>) -> Seq<char> {
    let own = before.filter(|s: Seq<char>| !annotation(s));
    if own.len() == 0 {
        app
    } else {
        text::joined(own, " - "@)
    }
}

/// A profile without its email: "Agency Collective (team@example.com)" is
/// "Agency Collective".
pub open spec fn without_email(profile: Seq<char>) -> Seq<char> {
    match text::rfind_from(profile, " ("@, profile.len() as int) {
        Some(p) if text::ends(profile, ")"@) => profile.take(p),
        _ => profile,
    }
}

/// The profile in the segments after the app's, where there is one.
pub open spec fn profile_of(after: Seq<Seq<char>>) -> Option<Seq<char>> {
    let profile = without_email(text::joined(after, " - "@));
    if profile.len() == 0 {
        None
    } else {
        Some(profile)
    }
}

/// A full window title taken apart: the tab's title and the profile.
pub open spec fn title_parts(full: Seq<char>, app: Seq<char>) -> (Seq<char>, Option<Seq<char>>) {
    let parts = segments(full);
    match last_at(parts, app) {
        None => (text::trimmed(full), None),
        Some(i) => (tab_title(parts.take(i), app), profile_of(parts.skip(i + 1))),
    }
}

/// The text in an optional string.
pub open spec fn optional(s: Option<String>) -> Option<Seq<char>> {
    match s {
        Some(t) => Some(t@),
        None => None,
    }
}

pub(crate) proof fn lemma_tidy_add(a: Seq<Seq<char>>, b: Seq<Seq<char>>)
    ensures
        tidy(a + b) == tidy(a) + tidy(b),
{
    let f = |p: Seq<char>| text::trimmed(p);
    assert((a + b).map_values(f) =~= a.map_values(f) + b.map_values(f));
    Seq::filter_distributes_over_add(
        a.map_values(f),
        b.map_values(f),
        |p: Seq<char>| p.len() > 0,
    );
}

pub(crate) proof fn lemma_tidy_one(p: Seq<char>)
    ensures
        tidy(seq![p]) == if text::trimmed(p).len() > 0 {
            seq![text::trimmed(p)]
        } else {
            Seq::empty()
        },
{
    let m = seq![p].map_values(|p: Seq<char>| text::trimmed(p));
    assert(m =~= seq![text::trimmed(p)]);
    assert(m.drop_last() =~= Seq::empty());
    reveal_with_fuel(Seq::filter, 2);
    assert(tidy(seq![p]) =~= if text::trimmed(p).len() > 0 {
        seq![text::trimmed(p)]
    } else {
        Seq::empty()
    });
}

/// The segments of a title: what stands between " - " or " – ".
fn title_segments(full: &str) -> (r: Vec<String>)
    ensures
        text::texts(r@) == segments(full@),
{
    proof {
        reveal_strlit(" - ");
        reveal_strlit(" – ");
    }
    let outer: Vec<String> = text::split(full, " - ");
    let ghost f = |p: Seq<char>| text::pieces(p, " – "@);
    let ghost ps = text::texts(outer@);
    let mut out: Vec<String> = Vec::new();
    let mut i: usize = 0;
    assert(cut_at_en_dash(ps.take(0)) =~= Seq::empty());
    assert(text::texts(out@) =~= tidy(cut_at_en_dash(ps.take(0))));
    while i < outer.len()
        invariant
            i <= outer.len(),
            ps == text::texts(outer@),
            " – "@.len() > 0,
            f == (|p: Seq<char>| text::pieces(p, " – "@)),
            text::texts(out@) == tidy(cut_at_en_dash(ps.take(i as int))),
        decreases outer.len() - i,
    {
        let inner: Vec<String> = text::split(outer[i].as_str(), " – ");
        let ghost qs = text::texts(inner@);
        let ghost base = text::texts(out@);
        let mut j: usize = 0;
        assert(base + tidy(qs.take(0)) =~= base);
        while j < inner.len()
            invariant
                j <= inner.len(),
                qs == text::texts(inner@),
                text::texts(out@) == base + tidy(qs.take(j as int)),
            decreases inner.len() - j,
        {
            let t: String = text::trim(inner[j].as_str());
            proof {
                assert(qs.take(j + 1) =~= qs.take(j as int) + seq![qs[j as int]]);
                lemma_tidy_add(qs.take(j as int), seq![qs[j as int]]);
                lemma_tidy_one(qs[j as int]);
            }
            let ghost before = out@;
            if !t.as_str().is_empty() {
                out.push(t);
                assert(text::texts(out@) =~= text::texts(before).push(t@));
            }
            assert(text::texts(out@) =~= base + tidy(qs.take(j + 1)));
            j = j + 1;
        }
        proof {
            assert(qs.take(j as int) =~= qs);
            assert(ps.take(i + 1) =~= ps.take(i as int).push(ps[i as int]));
            ps.take(i as int).lemma_flat_map_push(f, ps[i as int]);
            lemma_tidy_add(cut_at_en_dash(ps.take(i as int)), qs);
        }
        i = i + 1;
    }
    assert(ps.take(i as int) =~= ps);
    out
}

/// The position of the last of `parts` that is `app`.
fn rposition(parts: &Vec<String>, app: &str) -> (r: Option<usize>)
    ensures
        r matches Some(i) ==> i < parts.len() && last_at(text::texts(parts@), app@) == Some(
            i as int,
        ),
        r is None ==> last_at(text::texts(parts@), app@) is None,
{
    let ghost ps = text::texts(parts@);
    let mut i: usize = parts.len();
    assert(ps.take(i as int) =~= ps);
    while i > 0
        invariant
            i <= parts.len(),
            ps == text::texts(parts@),
            last_at(ps, app@) == last_at(ps.take(i as int), app@),
        decreases i,
    {
        if text::same(parts[i - 1].as_str(), app) {
            return Some(i - 1);
        }
        assert(ps.take(i as int).drop_last() =~= ps.take(i - 1));
        i = i - 1;
    }
    None
}

/// Splits `Tab title - Google Chrome - Profile (email)` into
/// (tab title, profile). Segments are separated by " - " or " – ".
pub fn split_title(full: &str, app: &str) -> (r: (String, Option<String>))
    ensures
        (r.0@, optional(r.1)) == title_parts(full@, app@),
{
    let parts: Vec<String> = title_segments(full);
    let ghost ps = text::texts(parts@);
    let at: usize = match rposition(&parts, app) {
        Some(i) => i,
        None => {
            return (text::trim(full), None);
        },
    };

    let ghost own = |s: Seq<char>| !annotation(s);
    let mut before: Vec<String> = Vec::new();
    let mut i: usize = 0;
    assert(text::texts(before@) =~= ps.take(0).filter(own));
    while i < at
        invariant
            i <= at < parts.len(),
            ps == text::texts(parts@),
            own == (|s: Seq<char>| !annotation(s)),
            text::texts(before@) == ps.take(i as int).filter(own),
        decreases at - i,
    {
        proof {
            assert(ps.take(i + 1).drop_last() =~= ps.take(i as int));
            reveal(Seq::filter);
        }
        let ghost b = before@;
        if !is_annotation(parts[i].as_str()) {
            before.push(parts[i].clone());
            assert(text::texts(before@) =~= text::texts(b).push(ps[i as int]));
        }
        i = i + 1;
    }
    let title: String = if before.len() == 0 {
        app.to_owned()
    } else {
        text::join(&before, " - ")
    };

    let mut after: Vec<String> = Vec::new();
    let mut k: usize = at + 1;
    assert(text::texts(after@) =~= ps.subrange(at + 1, k as int));
    while k < parts.len()
        invariant
            at < k <= parts.len(),
            ps == text::texts(parts@),
            text::texts(after@) == ps.subrange(at + 1, k as int),
        decreases parts.len() - k,
    {
        let ghost b = after@;
        after.push(parts[k].clone());
        assert(text::texts(after@) =~= text::texts(b).push(ps[k as int]));
        assert(ps.subrange(at + 1, k + 1) =~= ps.subrange(at + 1, k as int).push(ps[k as int]));
        k = k + 1;
    }
    assert(ps.subrange(at + 1, k as int) =~= ps.skip(at + 1));
    let whole: String = text::join(&after, " - ");
    let profile: String = drop_email(whole);
    if profile.as_str().is_empty() {
        (title, None)
    } else {
        (title, Some(profile))
    }
}

/// Drops the email from a profile.
fn drop_email(profile: String) -> (r: String)
    ensures
        r@ == without_email(profile@),
{
    let x: Vec<char> = text::chars_of(profile.as_str());
    let y: Vec<char> = text::chars_of(" (");
    proof {
        reveal_strlit(" (");
        text::lemma_rfind_from(profile@, " ("@, profile@.len() as int);
    }
    match text::rfind(&x, &y) {
        Some(p) => if text::ends_with(profile.as_str(), ")") {
            assert(profile@.subrange(0, p as int) =~= profile@.take(p as int));
            profile.as_str().substring_char(0, p).to_owned()
        } else {
            profile
        },
        None => profile,
    }
}

// ---- Laws -------------------------------------------------------------------

/// A text that a title can hold as one segment: not empty, no white space at
/// either end, and no separator inside.
pub open spec fn whole(s: Seq<char>) -> bool {
    &&& s.len() > 0
    &&& text::trimmed(s) == s
    &&& !text::has(s, " - "@)
    &&& !text::has(s, " – "@)
}

/// Segments that can be told apart again once they are joined: each is whole,
/// and none but the last ends in a dash that the next separator would take.
pub open spec fn separable(parts: Seq<Seq<char>>) -> bool {
    &&& forall|i: int| 0 <= i < parts.len() ==> whole(#[trigger] parts[i])
    &&& forall|i: int| 0 <= i < parts.len() - 1 ==> !text::ends(#[trigger] parts[i], " -"@)
}

/// A full title that joins tab segments, the app's name and profile segments
/// gives those back: the tab's title is its segments without annotations, and
/// the profile is what comes after the app's name, without its email.
pub proof fn law_title_round_trip(
    tabs: Seq<Seq<char>>,
    app: Seq<char>,
    after: Seq<Seq<char>>,
)
    requires
        separable(tabs + seq![app] + after),
        !after.contains(app),
    ensures
        title_parts(text::joined(tabs + seq![app] + after, " - "@), app) == (
            tab_title(tabs, app),
            profile_of(after),
        ),
{
    let all = tabs + seq![app] + after;
    lemma_segments_of_joined(all);
    lemma_last_at(tabs, app, after);
    assert(all.take(tabs.len() as int) =~= tabs);
    assert(all.skip(tabs.len() as int + 1) =~= after);
}

/// A title whose segments are joined by either dash: by " – " within each
/// group, and by " - " between the groups.
pub open spec fn dashed(groups: Seq<Seq<Seq<char>>>) -> Seq<char> {
    text::joined(groups.map_values(|g: Seq<Seq<char>>| text::joined(g, " – "@)), " - "@)
}

/// Groups of segments that can be told apart again once they are joined: each
/// segment is whole; none but its group's last ends in a dash that the next
/// " – " would take; and no group reads as if it held a " - ", or as if it
/// ended in the dash of the next one.
pub open spec fn tellable(groups: Seq<Seq<Seq<char>>>) -> bool {
    &&& forall|g: int| 0 <= g < groups.len() ==> #[trigger] tellable_group(groups[g])
    &&& forall|g: int|
        0 <= g < groups.len() - 1 ==> !text::ends(
            text::joined(#[trigger] groups[g], " – "@),
            " -"@,
        )
}

/// One group of segments that can be told apart again once they are joined by
/// " – ".
pub open spec fn tellable_group(parts: Seq<Seq<char>>) -> bool {
    &&& parts.len() > 0
    &&& forall|i: int| 0 <= i < parts.len() ==> whole(#[trigger] parts[i])
    &&& forall|i: int| 0 <= i < parts.len() - 1 ==> !text::ends(#[trigger] parts[i], " –"@)
    &&& !text::has(text::joined(parts, " – "@), " - "@)
}

/// The same holds whichever dashes the segments are joined by, also where a
/// title mixes them.
pub proof fn law_either_dash_round_trip(
    groups: Seq<Seq<Seq<char>>>,
    tabs: Seq<Seq<char>>,
    app: Seq<char>,
    after: Seq<Seq<char>>,
)
    requires
        tellable(groups),
        groups.flatten() == tabs + seq![app] + after,
        !after.contains(app),
    ensures
        title_parts(dashed(groups), app) == (tab_title(tabs, app), profile_of(after)),
{
    let all = tabs + seq![app] + after;
    assert(groups.len() > 0) by {
        if groups.len() == 0 {
            assert(groups.flatten().len() == 0);
        }
    }
    lemma_segments_of_dashed(groups);
    lemma_last_at(tabs, app, after);
    assert(all.take(tabs.len() as int) =~= tabs);
    assert(all.skip(tabs.len() as int + 1) =~= after);
}

/// A profile's email in parentheses is dropped: what is left is the name
/// before it.
pub proof fn law_email_is_dropped(name: Seq<char>, email: Seq<char>)
    requires
        !text::has(email, " ("@),
    ensures
        without_email(name + " ("@ + email + ")"@) == name,
{
    reveal_strlit(" (");
    reveal_strlit(")");
    let open = " ("@;
    let s = name + open + email + ")"@;
    let n = name.len() as int;
    assert(s.subrange(n, n + 2) =~= open);
    assert(text::occurs_at(s, open, n));
    assert forall|j: int| n < j implies !#[trigger] text::occurs_at(s, open, j) by {
        if text::occurs_at(s, open, j) {
            assert(s.subrange(j, j + 2)[0] == s[j]);
            assert(s.subrange(j, j + 2)[1] == s[j + 1]);
            assert(s[n + 1] == '(');
            assert(s[s.len() - 1] == ')');
            let k = j - n - 2;
            assert(email.subrange(k, k + 2) =~= open);
            assert(text::occurs_at(email, open, k));
        }
    }
    text::lemma_rfind_from(s, open, s.len() as int);
    assert(s.subrange(s.len() - 1, s.len() as int) =~= ")"@);
    assert(s.take(n) =~= name);
}

/// A title that does not name the app is kept, without the white space round
/// it, and gives no profile.
pub proof fn law_no_app_means_no_profile(full: Seq<char>, app: Seq<char>)
    requires
        !segments(full).contains(app),
    ensures
        title_parts(full, app) == (text::trimmed(full), None::<Seq<char>>),
{
    lemma_last_at_none(segments(full), app);
}

/// Whatever the title, the profile is not an empty text.
pub proof fn law_profile_is_not_empty(full: Seq<char>, app: Seq<char>)
    ensures
        title_parts(full, app).1 matches Some(p) ==> p.len() > 0,
{
}

proof fn lemma_last_at_none(parts: Seq<Seq<char>>, app: Seq<char>)
    requires
        !parts.contains(app),
    ensures
        last_at(parts, app) is None,
    decreases parts.len(),
{
    if parts.len() > 0 {
        assert(parts.contains(parts[parts.len() - 1]));
        assert forall|x: Seq<char>| parts.drop_last().contains(x) implies parts.contains(x) by {
            let i = choose|i: int| 0 <= i < parts.drop_last().len() && parts.drop_last()[i] == x;
            assert(parts[i] == x);
        }
        lemma_last_at_none(parts.drop_last(), app);
    }
}

pub(crate) proof fn lemma_last_at(tabs: Seq<Seq<char>>, app: Seq<char>, after: Seq<Seq<char>>)
    requires
        !after.contains(app),
    ensures
        last_at(tabs + seq![app] + after, app) == Some(tabs.len() as int),
    decreases after.len(),
{
    let all = tabs + seq![app] + after;
    if after.len() > 0 {
        assert(after.contains(after[after.len() - 1]));
        assert forall|x: Seq<char>| after.drop_last().contains(x) implies after.contains(x) by {
            let i = choose|i: int| 0 <= i < after.drop_last().len() && after.drop_last()[i] == x;
            assert(after[i] == x);
        }
        assert(all.drop_last() =~= tabs + seq![app] + after.drop_last());
        lemma_last_at(tabs, app, after.drop_last());
    }
}

proof fn lemma_trimmed_fixed(s: Seq<char>)
    requires
        s.len() > 0,
        text::trimmed(s) == s,
    ensures
        !text::white(s.last()),
{
    text::lemma_trimmed_start(s);
    lemma_trimmed_end_len(text::trimmed_start(s));
    if text::white(s[0]) {
        text::lemma_trimmed_start(s.drop_first());
    }
    if text::white(s.last()) {
        lemma_trimmed_end_len(s.drop_last());
    }
}

proof fn lemma_trimmed_end_len(s: Seq<char>)
    ensures
        text::trimmed_end(s).len() <= s.len(),
    decreases s.len(),
{
    if s.len() > 0 && text::white(s.last()) {
        lemma_trimmed_end_len(s.drop_last());
    }
}

/// Looking for a pattern past a prefix is looking for it in the rest.
proof fn lemma_find_shift(p: Seq<char>, r: Seq<char>, pat: Seq<char>, i: int)
    requires
        0 <= i,
    ensures
        text::find_from(p + r, pat, p.len() + i) == match text::find_from(r, pat, i) {
            Some(k) => Some(k + p.len()),
            None => None,
        },
    decreases r.len() - i + 1,
{
    let s = p + r;
    if i + pat.len() <= r.len() {
        assert(s.subrange(p.len() + i, p.len() + i + pat.len()) =~= r.subrange(i, i + pat.len()));
        if !text::occurs_at(r, pat, i) {
            lemma_find_shift(p, r, pat, i + 1);
        }
    }
}

pub(crate) proof fn lemma_pieces_shift(p: Seq<char>, r: Seq<char>, sep: Seq<char>, i: int)
    requires
        0 <= i <= r.len(),
        0 < sep.len(),
    ensures
        text::pieces_from(p + r, sep, p.len() + i) == text::pieces_from(r, sep, i),
    decreases r.len() - i,
{
    let s = p + r;
    lemma_find_shift(p, r, sep, i);
    text::lemma_find_from(r, sep, i);
    match text::find_from(r, sep, i) {
        Some(k) => {
            assert(s.subrange(p.len() + i, p.len() + k) =~= r.subrange(i, k));
            lemma_pieces_shift(p, r, sep, k + sep.len());
        },
        None => {
            assert(s.subrange(p.len() + i, s.len() as int) =~= r.subrange(i, r.len() as int));
        },
    }
}

/// A dash between two spaces.
spec fn separator(dash: char) -> Seq<char> {
    seq![' ', dash, ' ']
}

/// A text that a separator can follow and still be found where it was put: it
/// holds none, and does not end in a space or in what a separator begins with.
spec fn closed_off(s: Seq<char>, dash: char) -> bool {
    &&& s.len() > 0
    &&& s.last() != ' '
    &&& !text::has(s, separator(dash))
    &&& !text::ends(s, seq![' ', dash])
}

/// No separator begins within a closed-off text that one follows.
proof fn lemma_no_earlier_separator(a: Seq<char>, rest: Seq<char>, dash: char, j: int)
    requires
        closed_off(a, dash),
        dash != ' ',
        0 <= j < a.len(),
    ensures
        !text::occurs_at(a + separator(dash) + rest, separator(dash), j),
{
    let sep = separator(dash);
    let s = a + sep + rest;
    let n = a.len() as int;
    if text::occurs_at(s, sep, j) {
        let found = s.subrange(j, j + 3);
        assert(found[0] == s[j] && found[1] == s[j + 1] && found[2] == s[j + 2]);
        assert(sep[0] == ' ' && sep[1] == dash && sep[2] == ' ');
        if j + 3 <= n {
            assert(s[j] == a[j] && s[j + 1] == a[j + 1] && s[j + 2] == a[j + 2]);
            assert(a.subrange(j, j + 3) =~= sep);
            assert(text::occurs_at(a, sep, j));
        } else if j == n - 1 {
            assert(s[j] == a.last());
        } else {
            assert(j == n - 2);
            assert(s[j] == a[j] && s[j + 1] == a[j + 1]);
            assert(a.subrange(n - 2, n) =~= seq![' ', dash]);
            assert(text::ends(a, seq![' ', dash]));
        }
    }
}

/// The first separator after a segment is the one that was put there.
proof fn lemma_pieces_head(a: Seq<char>, rest: Seq<char>, dash: char)
    requires
        closed_off(a, dash),
        dash != ' ',
    ensures
        text::pieces(a + separator(dash) + rest, separator(dash)) == seq![a] + text::pieces(
            rest,
            separator(dash),
        ),
{
    let sep = separator(dash);
    let s = a + sep + rest;
    let n = a.len() as int;
    lemma_first_separator(a, rest, dash);
    assert(sep.len() == 3);
    assert(s.subrange(0, n) =~= a);
    assert(text::pieces_from(s, sep, 0) == seq![a] + text::pieces_from(s, sep, n + 3));
    lemma_pieces_shift(a + sep, rest, sep, 0);
}

proof fn lemma_first_separator(a: Seq<char>, rest: Seq<char>, dash: char)
    requires
        closed_off(a, dash),
        dash != ' ',
    ensures
        text::find_from(a + separator(dash) + rest, separator(dash), 0) == Some(a.len() as int),
{
    let sep = separator(dash);
    let s = a + sep + rest;
    let n = a.len() as int;
    assert(text::occurs_at(s, sep, n)) by {
        assert(s.subrange(n, n + 3) =~= sep);
    }
    assert forall|j: int| 0 <= j < n implies !#[trigger] text::occurs_at(s, sep, j) by {
        lemma_no_earlier_separator(a, rest, dash, j);
    }
    lemma_found_at(s, sep, n);
}

proof fn lemma_found_at(s: Seq<char>, pat: Seq<char>, n: int)
    requires
        0 <= n,
        text::occurs_at(s, pat, n),
        forall|j: int| 0 <= j < n ==> !#[trigger] text::occurs_at(s, pat, j),
    ensures
        text::find_from(s, pat, 0) == Some(n),
{
    text::lemma_find_from(s, pat, 0);
}

/// Texts that are closed off, but for the last, which only holds no separator,
/// are told apart again once they are joined.
proof fn lemma_pieces_of_joined(parts: Seq<Seq<char>>, dash: char)
    requires
        parts.len() > 0,
        forall|i: int| 0 <= i < parts.len() - 1 ==> closed_off(#[trigger] parts[i], dash),
        !text::has(parts.last(), separator(dash)),
        dash != ' ',
    ensures
        text::pieces(text::joined(parts, separator(dash)), separator(dash)) == parts,
    decreases parts.len(),
{
    let sep = separator(dash);
    if parts.len() == 1 {
        let s = parts[0];
        text::lemma_find_from(s, sep, 0);
        assert(s.subrange(0, s.len() as int) =~= s);
        assert(parts =~= seq![s]);
    } else {
        let rest = parts.drop_first();
        assert forall|i: int| 0 <= i < rest.len() - 1 implies closed_off(
            #[trigger] rest[i],
            dash,
        ) by {
            assert(closed_off(parts[i + 1], dash));
        }
        lemma_pieces_of_joined(rest, dash);
        text_laws::lemma_joined_front(parts, sep);
        lemma_pieces_head(parts[0], text::joined(rest, sep), dash);
        assert(parts =~= seq![parts[0]] + rest);
    }
}

proof fn lemma_whole_is_one_piece(s: Seq<char>)
    requires
        whole(s),
    ensures
        text::pieces(s, " – "@) == seq![s],
{
    text::lemma_find_from(s, " – "@, 0);
    assert(s.subrange(0, s.len() as int) =~= s);
}

proof fn lemma_tidy_whole(parts: Seq<Seq<char>>)
    requires
        forall|i: int| 0 <= i < parts.len() ==> whole(#[trigger] parts[i]),
    ensures
        tidy(parts) == parts,
    decreases parts.len(),
{
    if parts.len() == 0 {
        assert(tidy(parts) =~= parts);
    } else {
        let init = parts.drop_last();
        let s = parts.last();
        assert(whole(parts[parts.len() - 1]));
        assert forall|i: int| 0 <= i < init.len() implies whole(#[trigger] init[i]) by {
            assert(whole(parts[i]));
        }
        lemma_tidy_whole(init);
        assert(parts =~= init + seq![s]);
        lemma_tidy_add(init, seq![s]);
        lemma_tidy_one(s);
        assert(tidy(parts) =~= parts);
    }
}

proof fn lemma_cut_whole(parts: Seq<Seq<char>>)
    requires
        forall|i: int| 0 <= i < parts.len() ==> whole(#[trigger] parts[i]),
    ensures
        cut_at_en_dash(parts) == parts,
    decreases parts.len(),
{
    if parts.len() == 0 {
        assert(cut_at_en_dash(parts) =~= parts);
    } else {
        let init = parts.drop_last();
        let s = parts.last();
        assert(whole(parts[parts.len() - 1]));
        assert forall|i: int| 0 <= i < init.len() implies whole(#[trigger] init[i]) by {
            assert(whole(parts[i]));
        }
        lemma_cut_whole(init);
        lemma_whole_is_one_piece(s);
        assert(parts =~= init.push(s));
        init.lemma_flat_map_push(|p: Seq<char>| text::pieces(p, " – "@), s);
        assert(cut_at_en_dash(parts) =~= parts);
    }
}

proof fn lemma_segments_of_joined(parts: Seq<Seq<char>>)
    requires
        parts.len() > 0,
        separable(parts),
    ensures
        segments(text::joined(parts, " - "@)) == parts,
{
    reveal_strlit(" - ");
    reveal_strlit(" -");
    assert(" - "@ =~= separator('-'));
    assert(" -"@ =~= seq![' ', '-']);
    assert forall|i: int| 0 <= i < parts.len() - 1 implies closed_off(#[trigger] parts[i], '-') by {
        assert(whole(parts[i]));
        lemma_trimmed_fixed(parts[i]);
    }
    assert(whole(parts[parts.len() - 1]));
    lemma_pieces_of_joined(parts, '-');
    lemma_cut_whole(parts);
    lemma_tidy_whole(parts);
}

proof fn lemma_pieces_of_group(parts: Seq<Seq<char>>)
    requires
        tellable_group(parts),
    ensures
        text::pieces(text::joined(parts, " – "@), " – "@) == parts,
        text::joined(parts, " – "@).len() > 0,
        text::joined(parts, " – "@).last() != ' ',
{
    reveal_strlit(" – ");
    reveal_strlit(" –");
    assert(" – "@ =~= separator('–'));
    assert(" –"@ =~= seq![' ', '–']);
    assert forall|i: int| 0 <= i < parts.len() - 1 implies closed_off(#[trigger] parts[i], '–') by {
        assert(whole(parts[i]));
        lemma_trimmed_fixed(parts[i]);
    }
    assert(whole(parts[parts.len() - 1]));
    lemma_trimmed_fixed(parts.last());
    lemma_pieces_of_joined(parts, '–');
    let t = text::joined(parts, " – "@);
    assert(t.last() == parts.last().last());
}

proof fn lemma_flatten_whole(groups: Seq<Seq<Seq<char>>>)
    requires
        forall|g: int| 0 <= g < groups.len() ==> #[trigger] tellable_group(groups[g]),
    ensures
        forall|i: int| 0 <= i < groups.flatten().len() ==> whole(#[trigger] groups.flatten()[i]),
    decreases groups.len(),
{
    if groups.len() > 0 {
        let rest = groups.drop_first();
        assert forall|g: int| 0 <= g < rest.len() implies #[trigger] tellable_group(rest[g]) by {
            assert(tellable_group(groups[g + 1]));
        }
        lemma_flatten_whole(rest);
        assert(tellable_group(groups[0]));
        let all = groups.flatten();
        assert(all == groups[0] + rest.flatten());
        assert forall|i: int| 0 <= i < all.len() implies whole(#[trigger] all[i]) by {
            if i < groups[0].len() {
                assert(whole(groups[0][i]));
            } else {
                assert(whole(rest.flatten()[i - groups[0].len()]));
            }
        }
    }
}

proof fn lemma_segments_of_dashed(groups: Seq<Seq<Seq<char>>>)
    requires
        groups.len() > 0,
        tellable(groups),
    ensures
        segments(dashed(groups)) == groups.flatten(),
{
    reveal_strlit(" - ");
    reveal_strlit(" -");
    assert(" - "@ =~= separator('-'));
    assert(" -"@ =~= seq![' ', '-']);
    let ts = groups.map_values(|g: Seq<Seq<char>>| text::joined(g, " – "@));
    let f = |p: Seq<char>| text::pieces(p, " – "@);
    assert forall|g: int| 0 <= g < ts.len() implies f(#[trigger] ts[g]) == groups[g] && ts[g].len()
        > 0 && ts[g].last() != ' ' && !text::has(ts[g], separator('-')) by {
        assert(tellable_group(groups[g]));
        lemma_pieces_of_group(groups[g]);
    }
    assert forall|g: int| 0 <= g < ts.len() - 1 implies closed_off(#[trigger] ts[g], '-') by {
        assert(!text::ends(text::joined(groups[g], " – "@), " -"@));
    }
    lemma_pieces_of_joined(ts, '-');
    assert(ts.map_values(f) =~= groups);
    lemma_flatten_whole(groups);
    lemma_tidy_whole(groups.flatten());
}

} // verus!
