//! What holds of a PPD file with the labels for kids.

use vstd::prelude::*;

use crate::commands::ppd::{
    choice_line, english_line, kid_labelled, kid_line, kid_lines, labelled_line, labels,
    lemma_unlines_front, margin_line, margin_lines, menu_stripped, paper_in, paper_width, unlines,
    with_black_and_white, without_menu, zero_margins, Label, TONE_MENU,
};
use crate::commands::ppd_lines::{
    all_plain, lemma_concat_plain, lemma_lines_plain, lemma_lines_unlines, lemma_margin_plain,
    lemma_skip_plain, lemma_split_plain, no_returns, plain,
};
use crate::commands::ppd_margins::{lemma_margin_line_twice, upper_edge};
use crate::text::{
    contains, find_char, lemma_find_char, lemma_find_char_is, lines, occurs_at, replace,
    split_once, starts_with,
};

verus! {

// ------------------------------------------------------------------ the labels

/// A text without the marks that end the name of a choice, and without a star.
spec fn unmarked(s: Seq<char>) -> bool {
    forall|i: int|
        0 <= i < s.len() ==> #[trigger] s[i] != ':' && s[i] != '/' && s[i] != '*' && s[i] != '\n'
            && s[i] != '\r'
}

/// A label whose parts hold no marks, for a keyword that begins like no other line.
spec fn sound(b: Label) -> bool {
    &&& unmarked(b.keyword@)
    &&& unmarked(b.choice@)
    &&& unmarked(b.label@)
    &&& b.keyword@.len() > 0
    &&& b.keyword@[0] != 'e'
    &&& b.keyword@[0] != 'O'
    &&& b.keyword@[0] != 'T'
    &&& b.keyword@[0] != 'I'
    &&& b.keyword@[0] != 'H'
    &&& b.keyword@[0] == 'P' ==> b.keyword@.len() > 2 && b.keyword@[2] == 'g'
}

spec fn all_sound(l: Seq<Label>) -> bool {
    forall|i: int| 0 <= i < l.len() ==> sound(#[trigger] l[i])
}

proof fn lemma_labels_sound()
    ensures
        all_sound(labels()),
{
    reveal_strlit("PageSize");
    reveal_strlit("PageRegion");
    reveal_strlit("MediaType");
    reveal_strlit("cupsPrintQuality");
    reveal_strlit("ColorModel");
    reveal_strlit("48x297mm");
    reveal_strlit("48x500mm");
    reveal_strlit("A4");
    reveal_strlit("Letter");
    reveal_strlit("Stationery");
    reveal_strlit("Labels");
    reveal_strlit("Draft");
    reveal_strlit("Normal");
    reveal_strlit("High");
    reveal_strlit("Gray");
    reveal_strlit("FastGray");
    reveal_strlit("Cat Tape short");
    reveal_strlit("Cat Tape long");
    reveal_strlit("Cat Minidoc A4");
    reveal_strlit("Cat Minidoc Letter");
    reveal_strlit("Paper");
    reveal_strlit("Sticker");
    reveal_strlit("Text");
    reveal_strlit("Default");
    reveal_strlit("Picture");
    reveal_strlit("Grayscale");
    reveal_strlit("Black and white");
    assert(unmarked("PageSize"@) && unmarked("PageRegion"@) && unmarked("MediaType"@));
    assert(unmarked("cupsPrintQuality"@) && unmarked("ColorModel"@));
    assert(unmarked("48x297mm"@) && unmarked("48x500mm"@) && unmarked("A4"@) && unmarked("Letter"@));
    assert(unmarked("Stationery"@) && unmarked("Labels"@) && unmarked("Draft"@));
    assert(unmarked("Normal"@) && unmarked("High"@) && unmarked("Gray"@) && unmarked("FastGray"@));
    assert(unmarked("Cat Tape short"@) && unmarked("Cat Tape long"@));
    assert(unmarked("Cat Minidoc A4"@) && unmarked("Cat Minidoc Letter"@) && unmarked("Paper"@));
    assert(unmarked("Sticker"@) && unmarked("Text"@) && unmarked("Default"@));
    assert(unmarked("Picture"@) && unmarked("Grayscale"@) && unmarked("Black and white"@));
    let l = labels();
    assert(l.len() == 15);
    assert forall|i: int| 0 <= i < l.len() implies sound(#[trigger] l[i]) by {
        assert(i == 0 || i == 1 || i == 2 || i == 3 || i == 4 || i == 5 || i == 6 || i == 7 || i == 8
            || i == 9 || i == 10 || i == 11 || i == 12 || i == 13 || i == 14);
    }
}

/// The name of a choice at the beginning of its line.
spec fn star(b: Label) -> Seq<char> {
    "*"@ + b.keyword@ + " "@ + b.choice@
}

/// The name of a choice at the beginning of its line of English texts.
spec fn english(b: Label) -> Seq<char> {
    "*en_US."@ + b.keyword@ + " "@ + b.choice@
}

proof fn lemma_names(b: Label)
    requires
        sound(b),
    ensures
        star(b).len() >= 2,
        star(b)[0] == '*',
        star(b)[1] == b.keyword@[0],
        english(b).len() >= 8,
        english(b)[0] == '*',
        english(b)[1] == 'e',
        english(b)[7] == b.keyword@[0],
        forall|i: int|
            1 <= i < star(b).len() ==> #[trigger] star(b)[i] != ':' && star(b)[i] != '/' && star(b)[i]
                != '*',
        forall|i: int|
            1 <= i < english(b).len() ==> #[trigger] english(b)[i] != ':' && english(b)[i] != '/'
                && english(b)[i] != '*',
        plain(star(b)),
        plain(english(b)),
{
    reveal_strlit("*");
    reveal_strlit(" ");
    reveal_strlit("*en_US.");
    let (k, c) = (b.keyword@, b.choice@);
    assert forall|i: int| 0 <= i < star(b).len() implies (#[trigger] star(b)[i]) != '\n' && star(b)[i]
        != '\r' && (i >= 1 ==> star(b)[i] != ':' && star(b)[i] != '/' && star(b)[i] != '*') by {
        if i == 0 {
        } else if i < 1 + k.len() {
            assert(star(b)[i] == k[i - 1]);
        } else if i > 1 + k.len() {
            assert(star(b)[i] == c[i - 2 - k.len()]);
        }
    }
    assert forall|i: int| 0 <= i < english(b).len() implies (#[trigger] english(b)[i]) != '\n'
        && english(b)[i] != '\r' && (i >= 1 ==> english(b)[i] != ':' && english(b)[i] != '/'
        && english(b)[i] != '*') by {
        if i < 7 {
            assert(english(b)[i] == "*en_US."@[i]);
        } else if i < 7 + k.len() {
            assert(english(b)[i] == k[i - 7]);
        } else if i > 7 + k.len() {
            assert(english(b)[i] == c[i - 8 - k.len()]);
        }
    }
}

/// `line` begins with the name `s`.
spec fn leads(line: Seq<char>, s: Seq<char>) -> bool {
    line.len() >= s.len() && forall|i: int| 0 <= i < s.len() ==> #[trigger] line[i] == s[i]
}

proof fn lemma_leads(line: Seq<char>, s: Seq<char>)
    ensures
        starts_with(line, s) == leads(line, s),
{
    if starts_with(line, s) {
        assert forall|i: int| 0 <= i < s.len() implies #[trigger] line[i] == s[i] by {
            assert(line.subrange(0, s.len() as int)[i] == s[i]);
        }
    }
    if leads(line, s) {
        assert(line.subrange(0, s.len() as int) =~= s);
    }
}

/// Two names that begin one line, with a mark behind each, are one name.
proof fn lemma_one_name(line: Seq<char>, s: Seq<char>, t: Seq<char>)
    requires
        leads(line, s),
        leads(line, t),
        s.len() > 0,
        t.len() > 0,
        s.len() < line.len(),
        t.len() < line.len(),
        line[s.len() as int] == ':' || line[s.len() as int] == '/',
        line[t.len() as int] == ':' || line[t.len() as int] == '/',
        forall|i: int| 1 <= i < s.len() ==> #[trigger] s[i] != ':' && s[i] != '/',
        forall|i: int| 1 <= i < t.len() ==> #[trigger] t[i] != ':' && t[i] != '/',
    ensures
        s == t,
{
    if s.len() < t.len() {
        assert(line[s.len() as int] == t[s.len() as int]);
    }
    if t.len() < s.len() {
        assert(line[t.len() as int] == s[t.len() as int]);
    }
    assert forall|i: int| 0 <= i < s.len() implies s[i] == t[i] by {
        assert(line[i] == s[i]);
        assert(line[i] == t[i]);
    }
    assert(s =~= t);
}

/// `line` is a choice with its name `s` and label: what stands behind the mark.
spec fn payload(line: Seq<char>, s: Seq<char>, bare: bool) -> Option<Seq<char>> {
    if !leads(line, s) || s.len() >= line.len() {
        None
    } else if bare && line[s.len() as int] == ':' {
        Some(line.skip(s.len() as int + 1))
    } else if line[s.len() as int] == '/' {
        match split_once(line.skip(s.len() as int + 1), ':') {
            Some((_, p)) => Some(p),
            None => None,
        }
    } else {
        None
    }
}

spec fn relabelled(line: Seq<char>, s: Seq<char>, label: Seq<char>, bare: bool) -> Option<Seq<char>> {
    match payload(line, s, bare) {
        Some(p) => Some(s + "/"@ + label + ":"@ + p),
        None => None,
    }
}

proof fn lemma_choice_is(line: Seq<char>, b: Label)
    ensures
        choice_line(line, b) == relabelled(line, star(b), b.label@, true),
        english_line(line, b) == relabelled(line, english(b), b.label@, false),
{
    reveal_strlit("/");
    lemma_leads(line, star(b));
    let n = star(b).len() as int;
    if leads(line, star(b)) {
        let rest = line.skip(n);
        if n < line.len() {
            assert(rest[0] == line[n]);
            assert(rest.skip(1) =~= line.skip(n + 1));
        }
    }
    let e = english(b);
    let prefix = e + "/"@;
    let m = e.len() as int;
    assert("*en_US."@ + b.keyword@ + " "@ + b.choice@ + "/"@ == prefix);
    lemma_leads(line, prefix);
    assert(leads(line, prefix) <==> leads(line, e) && m < line.len() && line[m] == '/') by {
        if leads(line, prefix) {
            assert(line[m] == prefix[m]);
            assert forall|i: int| 0 <= i < e.len() implies #[trigger] line[i] == e[i] by {
                assert(line[i] == prefix[i]);
            }
        }
        if leads(line, e) && m < line.len() && line[m] == '/' {
            assert forall|i: int| 0 <= i < prefix.len() implies #[trigger] line[i] == prefix[i] by {
                if i < m {
                    assert(line[i] == e[i]);
                }
            }
        }
    }
    if leads(line, prefix) {
        assert(line.skip(prefix.len() as int) =~= line.skip(m + 1));
    }
}

/// A line that was relabelled keeps its name and what stands behind the label.
proof fn lemma_relabelled(line: Seq<char>, s: Seq<char>, label: Seq<char>, bare: bool)
    requires
        payload(line, s, bare) is Some,
        unmarked(label),
    ensures
        ({
            let z = relabelled(line, s, label, bare)->0;
            &&& leads(z, s)
            &&& z.len() > s.len()
            &&& z[s.len() as int] == '/'
            &&& payload(z, s, bare) == payload(line, s, bare)
            &&& payload(z, s, true) == payload(line, s, bare)
            &&& relabelled(z, s, label, bare) == Some(z)
        }),
{
    reveal_strlit("/");
    reveal_strlit(":");
    let p = payload(line, s, bare)->0;
    let z = s + "/"@ + label + ":"@ + p;
    let n = s.len() as int;
    assert forall|i: int| 0 <= i < s.len() implies #[trigger] z[i] == s[i] by {}
    assert(z[n] == '/');
    let rest = z.skip(n + 1);
    assert(rest =~= label + ":"@ + p);
    assert forall|i: int| 0 <= i < label.len() implies rest[i] != ':' by {
        assert(rest[i] == label[i]);
    }
    assert(rest[label.len() as int] == ':');
    lemma_find_char_is(rest, ':', label.len() as int);
    assert(rest.skip(label.len() as int + 1) =~= p);
}

/// The first label of a list that is for a line.
spec fn first_for(line: Seq<char>, l: Seq<Label>) -> Option<int>
    decreases l.len(),
{
    if l.len() == 0 {
        None
    } else if choice_line(line, l[0]) is Some || english_line(line, l[0]) is Some {
        Some(0)
    } else {
        match first_for(line, l.skip(1)) {
            Some(k) => Some(k + 1),
            None => None,
        }
    }
}

proof fn lemma_first_for(line: Seq<char>, l: Seq<Label>)
    ensures
        match first_for(line, l) {
            Some(k) => {
                &&& 0 <= k < l.len()
                &&& choice_line(line, l[k]) is Some || english_line(line, l[k]) is Some
                &&& forall|i: int|
                    0 <= i < k ==> choice_line(line, #[trigger] l[i]) is None && english_line(
                        line,
                        l[i],
                    ) is None
                &&& labelled_line(line, l) == if choice_line(line, l[k]) is Some {
                    choice_line(line, l[k])
                } else {
                    english_line(line, l[k])
                }
            },
            None => {
                &&& labelled_line(line, l) is None
                &&& forall|i: int|
                    0 <= i < l.len() ==> choice_line(line, #[trigger] l[i]) is None && english_line(
                        line,
                        l[i],
                    ) is None
            },
        },
    decreases l.len(),
{
    if l.len() > 0 && choice_line(line, l[0]) is None && english_line(line, l[0]) is None {
        let t = l.skip(1);
        lemma_first_for(line, t);
        match first_for(line, t) {
            Some(k) => {
                assert(t[k] == l[k + 1]);
                assert forall|i: int| 0 <= i < k + 1 implies choice_line(line, #[trigger] l[i]) is None
                    && english_line(line, l[i]) is None by {
                    if i > 0 {
                        assert(t[i - 1] == l[i]);
                    }
                }
            },
            None => {
                assert forall|i: int| 0 <= i < l.len() implies choice_line(
                    line,
                    #[trigger] l[i],
                ) is None && english_line(line, l[i]) is None by {
                    if i > 0 {
                        assert(t[i - 1] == l[i]);
                    }
                }
            },
        }
    }
}

/// Where `k` is the first label for a line, and another line has the same name there with a mark behind it,
/// `k` is the first label for that one too, if it is for it at all.
proof fn lemma_same_first(y: Seq<char>, z: Seq<char>, l: Seq<Label>, k: int)
    requires
        all_sound(l),
        first_for(y, l) == Some(k),
        0 <= k < l.len(),
        ({
            let s = if choice_line(y, l[k]) is Some {
                star(l[k])
            } else {
                english(l[k])
            };
            &&& leads(z, s)
            &&& z.len() > s.len()
            &&& z[s.len() as int] == '/'
            &&& choice_line(y, l[k]) is Some ==> choice_line(z, l[k]) is Some
            &&& choice_line(y, l[k]) is None ==> english_line(z, l[k]) is Some
        }),
    ensures
        first_for(z, l) == Some(k),
        choice_line(y, l[k]) is Some ==> labelled_line(z, l) == choice_line(z, l[k]),
        choice_line(y, l[k]) is None ==> labelled_line(z, l) == english_line(z, l[k]),
{
    lemma_first_for(y, l);
    lemma_first_for(z, l);
    let j = first_for(z, l)->0;
    assert(sound(l[k]));
    lemma_names(l[k]);
    lemma_choice_is(y, l[k]);
    lemma_choice_is(z, l[k]);
    assert(choice_line(z, l[k]) is Some || english_line(z, l[k]) is Some);
    assert(first_for(z, l) is Some);
    assert(sound(l[j]));
    lemma_names(l[j]);
    lemma_choice_is(y, l[j]);
    lemma_choice_is(z, l[j]);
    let chosen = choice_line(y, l[k]) is Some;
    let s = if chosen {
        star(l[k])
    } else {
        english(l[k])
    };
    if choice_line(z, l[j]) is Some {
        let t = star(l[j]);
        assert(z[1] == t[1] && z[1] == s[1]);
        lemma_one_name(z, s, t);
        assert(chosen);
        assert(payload(y, t, true) is Some);
        assert(choice_line(y, l[j]) is Some);
    } else {
        let t = english(l[j]);
        assert(z[1] == t[1] && z[1] == s[1]);
        lemma_one_name(z, s, t);
        assert(!chosen);
        assert(payload(y, t, false) is Some);
        assert(english_line(y, l[j]) is Some);
    }
    assert(j >= k);
    if j > k {
        assert(choice_line(z, l[k]) is None && english_line(z, l[k]) is None);
    }
    if !chosen {
        if choice_line(z, l[k]) is Some {
            assert(z[1] == star(l[k])[1]);
            assert(z[1] == english(l[k])[1]);
        }
    }
}

/// A line with a label keeps it.
proof fn lemma_labelled_twice(y: Seq<char>, l: Seq<Label>)
    requires
        all_sound(l),
        labelled_line(y, l) is Some,
    ensures
        labelled_line(labelled_line(y, l)->0, l) == labelled_line(y, l),
{
    lemma_first_for(y, l);
    let k = first_for(y, l)->0;
    let z = labelled_line(y, l)->0;
    assert(sound(l[k]));
    lemma_choice_is(y, l[k]);
    lemma_choice_is(z, l[k]);
    if choice_line(y, l[k]) is Some {
        lemma_relabelled(y, star(l[k]), l[k].label@, true);
    } else {
        lemma_relabelled(y, english(l[k]), l[k].label@, false);
    }
    lemma_same_first(y, z, l, k);
}

/// A line that begins like none of the names has no label.
proof fn lemma_no_label(z: Seq<char>, l: Seq<Label>)
    requires
        all_sound(l),
        z.len() > 7,
        z[1] == 'O' || z[1] == 'e' && z[7] == 'T',
    ensures
        labelled_line(z, l) is None,
{
    lemma_first_for(z, l);
    if let Some(k) = first_for(z, l) {
        assert(sound(l[k]));
        lemma_names(l[k]);
        lemma_choice_is(z, l[k]);
        if choice_line(z, l[k]) is Some {
            assert(z[1] == star(l[k])[1]);
        } else {
            assert(z[1] == english(l[k])[1]);
            assert(z[7] == english(l[k])[7]);
        }
    }
}

/// A line that has its label or title keeps it.
proof fn lemma_kid_line_twice(y: Seq<char>)
    ensures
        kid_line(kid_line(y)) == kid_line(y),
{
    let l = labels();
    lemma_labels_sound();
    if labelled_line(y, l) is Some {
        lemma_labelled_twice(y, l);
    } else if kid_line(y) != y {
        let z = kid_line(y);
        reveal_strlit("*OpenUI *cupsPrintQuality/Print style: PickOne");
        reveal_strlit("*OpenUI *cupsPrintQuality: PickOne");
        reveal_strlit("*OpenUI *cupsPrintQuality/");
        reveal_strlit("*OpenUI *MediaType/Paper type: PickOne");
        reveal_strlit("*OpenUI *MediaType: PickOne");
        reveal_strlit("*OpenUI *MediaType/");
        reveal_strlit("*en_US.Translation cupsPrintQuality/Print style: \"\"");
        reveal_strlit("*en_US.Translation cupsPrintQuality/");
        lemma_no_label(z, l);
        lemma_leads(z, "*OpenUI *cupsPrintQuality/"@);
        lemma_leads(z, "*OpenUI *MediaType/"@);
        lemma_leads(z, "*en_US.Translation cupsPrintQuality/"@);
        if z == "*OpenUI *cupsPrintQuality/Print style: PickOne"@ {
            assert(leads(z, "*OpenUI *cupsPrintQuality/"@));
        } else if z == "*OpenUI *MediaType/Paper type: PickOne"@ {
            assert(leads(z, "*OpenUI *MediaType/"@));
            assert(z[9] == 'M');
            assert("*OpenUI *cupsPrintQuality/"@[9] == 'c');
            assert("*OpenUI *cupsPrintQuality: PickOne"@[9] == 'c');
        } else {
            assert(leads(z, "*en_US.Translation cupsPrintQuality/"@));
            assert(z[1] == 'e');
            assert("*OpenUI *cupsPrintQuality/"@[1] == 'O');
            assert("*OpenUI *MediaType/"@[1] == 'O');
            assert("*OpenUI *cupsPrintQuality: PickOne"@[1] == 'O');
            assert("*OpenUI *MediaType: PickOne"@[1] == 'O');
        }
    }
}

// ------------------------------------------------------------------ a menu left out

proof fn lemma_without_menu(l: Seq<Seq<char>>, name: Seq<char>, skipping: bool)
    ensures
        forall|i: int|
            0 <= i < without_menu(l, name, skipping).len() ==> !starts_with(
                #[trigger] without_menu(l, name, skipping)[i],
                "*OpenUI *"@ + name,
            ),
        all_plain(l) ==> all_plain(without_menu(l, name, skipping)),
    decreases l.len(),
{
    if l.len() > 0 {
        lemma_without_menu(l.skip(1), name, true);
        lemma_without_menu(l.skip(1), name, false);
        if l.len() > 1 {
            lemma_without_menu(l.skip(2), name, false);
        }
        if all_plain(l) {
            assert forall|i: int| 0 <= i < l.skip(1).len() implies plain(#[trigger] l.skip(1)[i]) by {
                assert(plain(l[i + 1]));
            }
            if l.len() > 1 {
                assert forall|i: int| 0 <= i < l.skip(2).len() implies plain(
                    #[trigger] l.skip(2)[i],
                ) by {
                    assert(plain(l[i + 2]));
                }
            }
        }
        if !skipping && !starts_with(l[0], "*OpenUI *"@ + name) {
            let rest = without_menu(l.skip(1), name, false);
            let all = without_menu(l, name, false);
            assert(all == seq![l[0]] + rest);
            assert forall|i: int| 0 <= i < all.len() implies !starts_with(
                #[trigger] all[i],
                "*OpenUI *"@ + name,
            ) by {
                if i > 0 {
                    assert(all[i] == rest[i - 1]);
                }
            }
            if all_plain(l) {
                assert forall|i: int| 0 <= i < all.len() implies plain(#[trigger] all[i]) by {
                    if i > 0 {
                        assert(all[i] == rest[i - 1]);
                    } else {
                        assert(plain(l[0]));
                    }
                }
            }
        }
    }
}

proof fn lemma_no_menu(l: Seq<Seq<char>>, name: Seq<char>)
    requires
        forall|i: int| 0 <= i < l.len() ==> !starts_with(#[trigger] l[i], "*OpenUI *"@ + name),
    ensures
        without_menu(l, name, false) == l,
    decreases l.len(),
{
    if l.len() > 0 {
        let rest = l.skip(1);
        assert(!starts_with(l[0], "*OpenUI *"@ + name));
        assert forall|i: int| 0 <= i < rest.len() implies !starts_with(
            #[trigger] rest[i],
            "*OpenUI *"@ + name,
        ) by {
            assert(!starts_with(l[i + 1], "*OpenUI *"@ + name));
        }
        lemma_no_menu(rest, name);
        assert(seq![l[0]] + rest =~= l);
    } else {
        assert(without_menu(l, name, false) =~= l);
    }
}

/// The beginning of the line that opens the menu that is left out.
pub open spec fn opening() -> Seq<char> {
    "*OpenUI *"@ + "print-content-optimize"@
}

proof fn lemma_margin_start(line: Seq<char>, l: Seq<Seq<char>>)
    ensures
        margin_line(line, l) == line || margin_line(line, l).len() > 2 && (margin_line(line, l)[1]
            == 'I' || margin_line(line, l)[1] == 'H'),
        line.len() > 1 && line[1] != 'I' && line[1] != 'H' ==> margin_line(line, l) == line,
{
    reveal_strlit("*ImageableArea ");
    reveal_strlit("*HWMargins: \"0 ");
    reveal_strlit("*HWMargins:");
    lemma_leads(line, "*ImageableArea "@);
    lemma_leads(line, "*HWMargins:"@);
    if leads(line, "*ImageableArea "@) {
        assert(line[1] == "*ImageableArea "@[1]);
    }
    if leads(line, "*HWMargins:"@) {
        assert(line[1] == "*HWMargins:"@[1]);
    }
}

// ------------------------------------------------------------------ settled lines

/// A line that is plain, opens no menu that is left out, and has its label.
spec fn settled(x: Seq<char>) -> bool {
    &&& plain(x)
    &&& !starts_with(x, opening())
    &&& kid_line(x) == x
}

spec fn all_settled(l: Seq<Seq<char>>) -> bool {
    forall|i: int| 0 <= i < l.len() ==> settled(#[trigger] l[i])
}

proof fn lemma_kid_line_settled(y: Seq<char>)
    requires
        plain(y),
        !starts_with(y, opening()),
    ensures
        settled(kid_line(y)),
{
    let l = labels();
    let z = kid_line(y);
    lemma_kid_line_twice(y);
    lemma_labels_sound();
    reveal_strlit("*OpenUI *");
    reveal_strlit("print-content-optimize");
    lemma_leads(z, opening());
    assert(opening().len() == 31);
    assert(opening()[1] == 'O');
    assert(opening()[9] == 'p');
    if labelled_line(y, l) is Some {
        lemma_first_for(y, l);
        let k = first_for(y, l)->0;
        let b = l[k];
        assert(sound(b));
        lemma_names(b);
        lemma_choice_is(y, b);
        reveal_strlit("/");
        reveal_strlit(":");
        let bare = choice_line(y, b) is Some;
        let s = if bare {
            star(b)
        } else {
            english(b)
        };
        lemma_relabelled(y, s, b.label@, bare);
        assert(z[1] == s[1]);
        let p = payload(y, s, bare)->0;
        assert(plain(p)) by {
            let n = s.len() as int;
            lemma_skip_plain(y, n + 1);
            lemma_split_plain(y.skip(n + 1), ':');
        }
        assert(plain(b.label@)) by {
            assert forall|i: int| 0 <= i < b.label@.len() implies #[trigger] b.label@[i] != '\n'
                && b.label@[i] != '\r' by {}
        }
        lemma_concat_plain(s, "/"@);
        lemma_concat_plain(s + "/"@, b.label@);
        lemma_concat_plain(s + "/"@ + b.label@, ":"@);
        lemma_concat_plain(s + "/"@ + b.label@ + ":"@, p);
    } else if z != y {
        reveal_strlit("*OpenUI *cupsPrintQuality/Print style: PickOne");
        reveal_strlit("*OpenUI *MediaType/Paper type: PickOne");
        reveal_strlit("*en_US.Translation cupsPrintQuality/Print style: \"\"");
        if z == "*OpenUI *cupsPrintQuality/Print style: PickOne"@ {
            assert(z[9] == 'c');
            assert(plain(z));
        } else if z == "*OpenUI *MediaType/Paper type: PickOne"@ {
            assert(z[9] == 'M');
            assert(plain(z));
        } else {
            assert(z[1] == 'e');
            assert(plain(z));
        }
    }
}

// ------------------------------------------------------------------ the tone menu

spec fn tone_head() -> Seq<char> {
    "*OpenUI *ColorModel"@
}

spec fn tone_tail() -> Seq<char> {
    "/Tone: PickOne"@
}

spec fn tone_choice() -> Seq<char> {
    "*ColorModel FastGray/Black and white: \"\""@
}

spec fn tone_english() -> Seq<char> {
    "*en_US.ColorModel FastGray/Black and white: \"\""@
}

proof fn lemma_tone_menu()
    ensures
        TONE_MENU@ == (tone_head() + tone_tail()).push('\n') + tone_choice().push('\n')
            + tone_english().push('\n'),
{
    reveal_strlit(
        "*OpenUI *ColorModel/Tone: PickOne\n*ColorModel FastGray/Black and white: \"\"\n*en_US.ColorModel FastGray/Black and white: \"\"\n",
    );
    reveal_strlit("*OpenUI *ColorModel");
    reveal_strlit("/Tone: PickOne");
    reveal_strlit("*ColorModel FastGray/Black and white: \"\"");
    reveal_strlit("*en_US.ColorModel FastGray/Black and white: \"\"");
    assert(TONE_MENU@ =~= (tone_head() + tone_tail()).push('\n') + tone_choice().push('\n')
        + tone_english().push('\n'));
}

/// `x` ends with `f`.
pub open spec fn ends_with(x: Seq<char>, f: Seq<char>) -> bool {
    x.len() >= f.len() && x.skip(x.len() - f.len()) == f
}

/// What a line becomes whose end opens the tone menu in another way.
spec fn toned_line(x: Seq<char>, f: Seq<char>) -> Seq<Seq<char>> {
    if ends_with(x, f) {
        seq![
            x.take(x.len() - f.len()) + (tone_head() + tone_tail()),
            tone_choice(),
            tone_english(),
        ]
    } else {
        seq![x]
    }
}

spec fn toned(l: Seq<Seq<char>>, f: Seq<char>) -> Seq<Seq<char>>
    decreases l.len(),
{
    if l.len() == 0 {
        Seq::empty()
    } else {
        toned_line(l[0], f) + toned(l.skip(1), f)
    }
}

proof fn lemma_unlines_concat(a: Seq<Seq<char>>, b: Seq<Seq<char>>)
    ensures
        unlines(a + b) == unlines(a) + unlines(b),
    decreases b.len(),
{
    if b.len() == 0 {
        assert(a + b =~= a);
        assert(unlines(a) + unlines(b) =~= unlines(a));
    } else {
        assert((a + b).drop_last() =~= a + b.drop_last());
        lemma_unlines_concat(a, b.drop_last());
        assert(unlines(a + b) =~= unlines(a) + unlines(b));
    }
}

proof fn lemma_toned_unlines(x: Seq<char>, f: Seq<char>)
    ensures
        unlines(toned_line(x, f)) == if ends_with(x, f) {
            x.take(x.len() - f.len()) + TONE_MENU@
        } else {
            x.push('\n')
        },
{
    lemma_tone_menu();
    assert(unlines(Seq::<Seq<char>>::empty()) =~= Seq::<char>::empty());
    if ends_with(x, f) {
        let a = x.take(x.len() - f.len()) + (tone_head() + tone_tail());
        let l = toned_line(x, f);
        assert(l.drop_last() =~= seq![a, tone_choice()]);
        assert(l.drop_last().drop_last() =~= seq![a]);
        assert(l.drop_last().drop_last().drop_last() =~= Seq::<Seq<char>>::empty());
        assert(unlines(seq![a]) =~= a.push('\n'));
        assert(unlines(seq![a, tone_choice()]) =~= a.push('\n') + tone_choice().push('\n'));
        assert(unlines(l) =~= x.take(x.len() - f.len()) + TONE_MENU@);
    } else {
        assert(seq![x].drop_last() =~= Seq::<Seq<char>>::empty());
        assert(unlines(seq![x]) =~= x.push('\n'));
    }
}

/// Replacing in a text that begins with a line replaces in the line, and in the rest.
proof fn lemma_replace_line(x: Seq<char>, rest: Seq<char>, f: Seq<char>)
    requires
        plain(x),
        plain(f),
        f.len() > 0,
    ensures
        replace(x.push('\n') + rest, f.push('\n'), TONE_MENU@) == unlines(toned_line(x, f)) + replace(
            rest,
            f.push('\n'),
            TONE_MENU@,
        ),
    decreases x.len(),
{
    let s = x.push('\n') + rest;
    let from = f.push('\n');
    let n = f.len() as int;
    lemma_toned_unlines(x, f);
    lemma_leads(s, from);
    if starts_with(s, from) {
        assert(s[n] == from[n]);
        assert(x.len() == n) by {
            if n < x.len() {
                assert(x[n] != '\n');
            }
            if x.len() < n {
                assert(s[x.len() as int] == from[x.len() as int]);
                assert(f[x.len() as int] != '\n');
            }
        }
        assert forall|i: int| 0 <= i < n implies x[i] == f[i] by {
            assert(s[i] == from[i]);
        }
        assert(x =~= f);
        assert(x.skip(0) =~= f);
        assert(x.take(0) + TONE_MENU@ =~= TONE_MENU@);
        assert(s.skip(n + 1) =~= rest);
    } else {
        if ends_with(x, f) && x.len() == n {
            assert(x.skip(0) =~= x);
            assert forall|i: int| 0 <= i < from.len() implies #[trigger] s[i] == from[i] by {}
            assert(leads(s, from));
        }
        if s.len() < from.len() {
            assert(!ends_with(x, f));
            assert(replace(rest, from, TONE_MENU@) == rest);
        } else if x.len() == 0 {
            assert(s.skip(1) =~= rest);
            assert(seq![s[0]] =~= x.push('\n'));
            assert(!ends_with(x, f));
        } else {
            let y = x.skip(1);
            assert(s.skip(1) =~= y.push('\n') + rest);
            lemma_skip_plain(x, 1);
            lemma_replace_line(y, rest, f);
            lemma_toned_unlines(y, f);
            let tail = replace(rest, from, TONE_MENU@);
            if ends_with(x, f) {
                assert(y.skip(y.len() - n) =~= x.skip(x.len() - n));
                assert(seq![x[0]] + (y.take(y.len() - n) + TONE_MENU@ + tail) =~= x.take(x.len() - n)
                    + TONE_MENU@ + tail);
            } else {
                if ends_with(y, f) {
                    assert(y.skip(y.len() - n) =~= x.skip(x.len() - n));
                }
                assert(seq![x[0]] + (y.push('\n') + tail) =~= x.push('\n') + tail);
            }
        }
    }
}

/// Replacing in lines replaces in each.
proof fn lemma_replace_lines(l: Seq<Seq<char>>, f: Seq<char>)
    requires
        all_plain(l),
        plain(f),
        f.len() > 0,
    ensures
        replace(unlines(l), f.push('\n'), TONE_MENU@) == unlines(toned(l, f)),
    decreases l.len(),
{
    if l.len() == 0 {
        assert(unlines(l) =~= Seq::<char>::empty());
    } else {
        let rest = l.skip(1);
        assert(plain(l[0]));
        assert forall|i: int| 0 <= i < rest.len() implies plain(#[trigger] rest[i]) by {
            assert(plain(l[i + 1]));
        }
        assert(l =~= seq![l[0]] + rest);
        lemma_unlines_front(l[0], rest);
        lemma_replace_line(l[0], unlines(rest), f);
        lemma_replace_lines(rest, f);
        lemma_unlines_concat(toned_line(l[0], f), toned(rest, f));
    }
}

/// Lines that agree up to a star behind the label have the same name and label.
proof fn lemma_agree_to_star(
    x: Seq<char>,
    y: Seq<char>,
    n: int,
    s: Seq<char>,
    label: Seq<char>,
    p: Seq<char>,
    bare: bool,
)
    requires
        x == s + "/"@ + label + ":"@ + p,
        unmarked(label),
        s.len() > 0,
        forall|i: int| 1 <= i < s.len() ==> #[trigger] s[i] != '*',
        0 < n < x.len(),
        n < y.len(),
        x[n] == '*',
        forall|i: int| 0 <= i <= n ==> #[trigger] x[i] == y[i],
    ensures
        leads(y, s),
        s.len() < y.len(),
        y[s.len() as int] == '/',
        relabelled(y, s, label, bare) == Some(y),
{
    reveal_strlit("/");
    reveal_strlit(":");
    let m = s.len() as int;
    let q = m + 1 + label.len();
    assert(x[q] == ':');
    assert(x[m] == '/');
    assert(n > q) by {
        if n < m {
            assert(x[n] == s[n]);
        } else if n > m && n < q {
            assert(x[n] == label[n - m - 1]);
        }
    }
    assert forall|i: int| 0 <= i < s.len() implies #[trigger] y[i] == s[i] by {
        assert(x[i] == y[i]);
    }
    assert(x[m] == y[m]);
    let rest = y.skip(m + 1);
    assert forall|i: int| 0 <= i < label.len() implies #[trigger] rest[i] == label[i] by {
        assert(x[i + m + 1] == y[i + m + 1]);
        assert(x[i + m + 1] == label[i]);
    }
    assert(x[q] == y[q]);
    assert(rest[label.len() as int] == ':');
    lemma_find_char_is(rest, ':', label.len() as int);
    let t = rest.skip(label.len() as int + 1);
    let z = s + "/"@ + label + ":"@ + t;
    assert(z.len() == y.len());
    assert forall|i: int| 0 <= i < z.len() implies z[i] == y[i] by {
        if i < m {
            assert(y[i] == s[i]);
        } else if m < i && i < q {
            assert(rest[i - m - 1] == label[i - m - 1]);
        } else if i > q {
            assert(z[i] == t[i - q - 1]);
        }
    }
    assert(z =~= y);
}

/// A line that holds a star at `n`, with a label that it keeps, keeps it whatever stands behind the star.
proof fn lemma_label_before_star(
    x: Seq<char>,
    y: Seq<char>,
    n: int,
    k: int,
    l: Seq<Label>,
)
    requires
        all_sound(l),
        0 < n < x.len(),
        n < y.len(),
        x[n] == '*',
        forall|i: int| 0 <= i <= n ==> #[trigger] x[i] == y[i],
        labelled_line(x, l) == Some(x),
        first_for(x, l) == Some(k),
    ensures
        labelled_line(y, l) == Some(y),
{
    lemma_first_for(x, l);
    let b = l[k];
    assert(sound(b));
    lemma_names(b);
    lemma_choice_is(x, b);
    lemma_choice_is(y, b);
    if choice_line(x, b) is Some {
        lemma_agree_to_star(x, y, n, star(b), b.label@, payload(x, star(b), true)->0, true);
    } else {
        lemma_agree_to_star(x, y, n, english(b), b.label@, payload(x, english(b), false)->0, false);
    }
    lemma_same_first(x, y, l, k);
}

/// A name that begins a line with a star at `n` ends before it.
proof fn lemma_name_before_star(x: Seq<char>, n: int, s: Seq<char>)
    requires
        0 <= n,
        n + 1 < x.len(),
        x[n] == '*',
        x[n + 1] == 'O',
        leads(x, s),
        2 <= s.len() < x.len(),
        s[1] != 'O',
        x[s.len() as int] == ':' || x[s.len() as int] == '/',
        forall|i: int| 1 <= i < s.len() ==> #[trigger] s[i] != '*',
    ensures
        0 < n,
        s.len() < n,
{
    assert(x[1] == s[1]);
    if 1 <= n && n < s.len() {
        assert(x[n] == s[n]);
    }
}

/// A line that keeps its label keeps it when its end opens the tone menu in another way.
proof fn lemma_toned_label(pre: Seq<char>, g: Seq<char>)
    requires
        g == ": PickOne"@ || g == "/Color Mode: PickOne"@,
        kid_line(pre + tone_head() + g) == pre + tone_head() + g,
        labelled_line(pre + tone_head() + tone_tail(), labels()) is Some,
    ensures
        labelled_line(pre + tone_head() + tone_tail(), labels()) == Some(
            pre + tone_head() + tone_tail(),
        ),
{
    let l = labels();
    lemma_labels_sound();
    reveal_strlit(": PickOne");
    reveal_strlit("/Color Mode: PickOne");
    reveal_strlit("/Tone: PickOne");
    reveal_strlit("*OpenUI *ColorModel");
    let x = pre + tone_head() + g;
    let y = pre + tone_head() + tone_tail();
    let n = pre.len() as int;
    assert(x[n] == '*' && y[n] == '*' && y[n + 1] == 'O' && x[n + 1] == 'O');
    assert forall|i: int| 0 <= i <= n implies #[trigger] x[i] == y[i] by {}
    lemma_first_for(y, l);
    let k = first_for(y, l)->0;
    let b = l[k];
    assert(sound(b));
    lemma_names(b);
    lemma_choice_is(y, b);
    lemma_choice_is(x, b);
    let bare = choice_line(y, b) is Some;
    let s = if bare {
        star(b)
    } else {
        english(b)
    };
    assert(payload(y, s, bare) is Some);
    lemma_name_before_star(y, n, s);
    let m = s.len() as int;
    assert forall|i: int| 0 <= i < s.len() implies #[trigger] x[i] == s[i] by {
        assert(y[i] == s[i]);
    }
    assert(x[m] == y[m]);
    // the colon at the end is behind the name
    let at = x.len() - 9;
    assert(x[at] == ':');
    let rest = x.skip(m + 1);
    assert(rest[at - m - 1] == ':');
    lemma_find_char(rest, ':');
    assert(payload(x, s, bare) is Some);
    lemma_first_for(x, l);
    assert(labelled_line(x, l) is Some);
    assert(labelled_line(x, l) == Some(x));
    lemma_label_before_star(x, y, n, first_for(x, l)->0, l);
}

/// A settled line stays settled when its end opens the tone menu in another way.
proof fn lemma_toned_kid(pre: Seq<char>, g: Seq<char>)
    requires
        g == ": PickOne"@ || g == "/Color Mode: PickOne"@,
        kid_line(pre + tone_head() + g) == pre + tone_head() + g,
    ensures
        kid_line(pre + tone_head() + tone_tail()) == pre + tone_head() + tone_tail(),
{
    let l = labels();
    let x = pre + tone_head() + g;
    let y = pre + tone_head() + tone_tail();
    let n = pre.len() as int;
    if labelled_line(y, l) is Some {
        lemma_toned_label(pre, g);
    } else {
        lemma_labels_sound();
        reveal_strlit(": PickOne");
        reveal_strlit("/Color Mode: PickOne");
        reveal_strlit("/Tone: PickOne");
        reveal_strlit("*OpenUI *ColorModel");
        reveal_strlit("*OpenUI *cupsPrintQuality/Print style: PickOne");
        reveal_strlit("*OpenUI *cupsPrintQuality: PickOne");
        reveal_strlit("*OpenUI *cupsPrintQuality/");
        reveal_strlit("*OpenUI *MediaType/Paper type: PickOne");
        reveal_strlit("*OpenUI *MediaType: PickOne");
        reveal_strlit("*OpenUI *MediaType/");
        reveal_strlit("*en_US.Translation cupsPrintQuality/Print style: \"\"");
        reveal_strlit("*en_US.Translation cupsPrintQuality/");
        let c = "*OpenUI *cupsPrintQuality/"@;
        let m = "*OpenUI *MediaType/"@;
        let t = "*en_US.Translation cupsPrintQuality/"@;
        lemma_leads(y, c);
        lemma_leads(y, m);
        lemma_leads(y, t);
        lemma_leads(x, c);
        lemma_leads(x, m);
        lemma_leads(x, t);
        assert(y[n] == '*' && y[n + 1] == 'O' && x[n] == '*');
        assert forall|i: int| 0 <= i < n + 19 implies #[trigger] x[i] == y[i] by {}
        assert(y.len() == n + 33);
        assert(x.len() == n + 28 || x.len() == n + 39);
        assert(x.last() == 'e');
        if y == "*OpenUI *cupsPrintQuality: PickOne"@ {
            assert(n == 1);
            assert(y[1] == 'O');
        }
        if leads(y, c) {
            assert(y[1] == c[1] && y[9] == c[9]);
            if n < 7 {
                assert(y[n] == c[n]);
                assert(n == 0);
                assert(y[9] == 'C');
            } else {
                assert forall|i: int| 0 <= i < c.len() implies #[trigger] x[i] == c[i] by {
                    assert(x[i] == y[i]);
                    assert(y[i] == c[i]);
                }
                assert(x[1] == c[1]);
                lemma_no_label(x, l);
                assert(x == "*OpenUI *cupsPrintQuality/Print style: PickOne"@);
                assert(n == 18 || n == 7);
                assert(x[n] != '*');
            }
        }
        if leads(y, m) {
            assert forall|i: int| 0 <= i < m.len() implies #[trigger] x[i] == m[i] by {
                assert(x[i] == y[i]);
                assert(y[i] == m[i]);
            }
            assert(x[1] == m[1] && x[9] == m[9]);
            lemma_no_label(x, l);
            if leads(x, c) {
                assert(x[9] == c[9]);
            }
            assert(x == "*OpenUI *MediaType/Paper type: PickOne"@);
            assert(n == 10);
            assert(x[n] != '*');
        }
        if leads(y, t) {
            assert(y[1] == t[1] && y[7] == t[7]);
            if n < 17 {
                assert(y[n] == t[n]);
                assert(n == 0);
            } else {
                assert forall|i: int| 0 <= i < t.len() implies #[trigger] x[i] == t[i] by {
                    assert(x[i] == y[i]);
                    assert(y[i] == t[i]);
                }
                assert(x[1] == t[1] && x[7] == t[7]);
                lemma_no_label(x, l);
                if leads(x, c) {
                    assert(x[1] == c[1]);
                }
                if leads(x, m) {
                    assert(x[1] == m[1]);
                }
                assert(x == "*en_US.Translation cupsPrintQuality/Print style: \"\""@);
            }
        }
    }
}

/// It opens no menu that is left out either.
proof fn lemma_toned_opening(pre: Seq<char>, g: Seq<char>)
    requires
        !starts_with(pre + tone_head() + g, opening()),
    ensures
        !starts_with(pre + tone_head() + tone_tail(), opening()),
{
    reveal_strlit("*OpenUI *ColorModel");
    reveal_strlit("*OpenUI *");
    reveal_strlit("print-content-optimize");
    let x = pre + tone_head() + g;
    let y = pre + tone_head() + tone_tail();
    let o = opening();
    let n = pre.len() as int;
    assert(o.len() == 31);
    lemma_leads(x, o);
    lemma_leads(y, o);
    if leads(y, o) {
        assert(y[n] == '*' && y[n + 1] == 'O' && y[n + 9] == 'C');
        if n < 12 {
            assert(y[n] == o[n]);
            assert(y[9] == o[9]);
            assert(o[9] == 'p');
            assert(n == 0 || n == 8);
        } else {
            assert forall|i: int| 0 <= i < o.len() implies #[trigger] x[i] == o[i] by {
                assert(y[i] == o[i]);
            }
        }
    }
}

/// The names of the choices differ.
proof fn lemma_names_differ(i: int, j: int)
    requires
        0 <= i < 15,
        0 <= j < 15,
        star(labels()[i]) == star(labels()[j]),
    ensures
        i == j,
{
    reveal_strlit("*");
    reveal_strlit(" ");
    reveal_strlit("PageSize");
    reveal_strlit("PageRegion");
    reveal_strlit("MediaType");
    reveal_strlit("cupsPrintQuality");
    reveal_strlit("ColorModel");
    reveal_strlit("48x297mm");
    reveal_strlit("48x500mm");
    reveal_strlit("A4");
    reveal_strlit("Letter");
    reveal_strlit("Stationery");
    reveal_strlit("Labels");
    reveal_strlit("Draft");
    reveal_strlit("Normal");
    reveal_strlit("High");
    reveal_strlit("Gray");
    reveal_strlit("FastGray");
    let l = labels();
    let (a, b) = (star(l[i]), star(l[j]));
    assert(a.len() == b.len() && a[1] == b[1] && a[5] == b[5]);
    if a.len() == 18 {
        assert(a[13] == b[13]);
    }
    if a.len() == 20 {
        assert(a[15] == b[15]);
    }
    assert(star(l[0]).len() == 18 && star(l[0])[5] == 'S' && star(l[0])[13] == '2');
    assert(star(l[1]).len() == 18 && star(l[1])[5] == 'S' && star(l[1])[13] == '5');
    assert(star(l[2]).len() == 12);
    assert(star(l[3]).len() == 16 && star(l[3])[1] == 'P');
    assert(star(l[4]).len() == 20 && star(l[4])[1] == 'P' && star(l[4])[15] == '2');
    assert(star(l[5]).len() == 20 && star(l[5])[1] == 'P' && star(l[5])[15] == '5');
    assert(star(l[6]).len() == 14);
    assert(star(l[7]).len() == 18 && star(l[7])[5] == 'R');
    assert(star(l[8]).len() == 21);
    assert(star(l[9]).len() == 17);
    assert(star(l[10]).len() == 23);
    assert(star(l[11]).len() == 24);
    assert(star(l[12]).len() == 22);
    assert(star(l[13]).len() == 16 && star(l[13])[1] == 'C');
    assert(star(l[14]).len() == 20 && star(l[14])[1] == 'C');
    assert(i == 0 || i == 1 || i == 2 || i == 3 || i == 4 || i == 5 || i == 6 || i == 7 || i == 8 || i
        == 9 || i == 10 || i == 11 || i == 12 || i == 13 || i == 14);
    assert(j == 0 || j == 1 || j == 2 || j == 3 || j == 4 || j == 5 || j == 6 || j == 7 || j == 8 || j
        == 9 || j == 10 || j == 11 || j == 12 || j == 13 || j == 14);
}

proof fn lemma_english_is_star(b: Label, c: Label)
    requires
        english(b) == english(c),
    ensures
        star(b) == star(c),
{
    reveal_strlit("*");
    reveal_strlit("*en_US.");
    assert(english(b).skip(7) =~= b.keyword@ + " "@ + b.choice@);
    assert(english(c).skip(7) =~= c.keyword@ + " "@ + c.choice@);
    assert(star(b) =~= "*"@ + english(b).skip(7));
    assert(star(c) =~= "*"@ + english(c).skip(7));
}

/// A choice that has a label gets that label and no other.
proof fn lemma_own_label(y: Seq<char>, k: int)
    requires
        0 <= k < 15,
    ensures
        choice_line(y, labels()[k]) is Some ==> labelled_line(y, labels()) == choice_line(
            y,
            labels()[k],
        ),
        english_line(y, labels()[k]) is Some ==> labelled_line(y, labels()) == english_line(
            y,
            labels()[k],
        ),
{
    let l = labels();
    assert(l.len() == 15);
    lemma_labels_sound();
    lemma_first_for(y, l);
    let b = l[k];
    assert(sound(b));
    lemma_names(b);
    lemma_choice_is(y, b);
    if choice_line(y, b) is Some || english_line(y, b) is Some {
        let j = first_for(y, l)->0;
        let c = l[j];
        assert(sound(c));
        lemma_names(c);
        lemma_choice_is(y, c);
        if choice_line(y, b) is Some {
            assert(y[1] == star(b)[1]);
            if choice_line(y, c) is None {
                assert(y[1] == english(c)[1]);
            }
            lemma_one_name(y, star(b), star(c));
            lemma_names_differ(k, j);
        } else {
            assert(y[1] == english(b)[1]);
            if choice_line(y, c) is Some {
                assert(y[1] == star(c)[1]);
            }
            lemma_one_name(y, english(b), english(c));
            lemma_english_is_star(b, c);
            lemma_names_differ(k, j);
        }
        if choice_line(y, b) is Some && english_line(y, b) is Some {
            assert(y[1] == english(b)[1]);
        }
    }
}

proof fn lemma_tone_lines_settled()
    ensures
        settled(tone_choice()),
        settled(tone_english()),
{
    reveal_strlit("*ColorModel FastGray/Black and white: \"\"");
    reveal_strlit("*en_US.ColorModel FastGray/Black and white: \"\"");
    reveal_strlit("*OpenUI *");
    reveal_strlit("print-content-optimize");
    reveal_strlit("*");
    reveal_strlit(" ");
    reveal_strlit("*en_US.");
    reveal_strlit("ColorModel");
    reveal_strlit("FastGray");
    reveal_strlit("Black and white");
    reveal_strlit("/");
    reveal_strlit(":");
    let (c, e) = (tone_choice(), tone_english());
    let b = labels()[14];
    lemma_leads(c, opening());
    lemma_leads(e, opening());
    assert(opening()[1] == 'O');
    if leads(c, opening()) {
        assert(c[1] == opening()[1]);
    }
    if leads(e, opening()) {
        assert(e[1] == opening()[1]);
    }
    assert(plain(c) && plain(e));
    let p = seq![' ', '"', '"'];
    let (s, t) = (star(b), english(b));
    assert(c =~= s + "/"@ + b.label@ + ":"@ + p);
    assert(e =~= t + "/"@ + b.label@ + ":"@ + p);
    lemma_choice_is(c, b);
    lemma_choice_is(e, b);
    lemma_has_payload(s, b.label@, p);
    lemma_has_payload(t, b.label@, p);
    lemma_own_label(c, 14);
    lemma_own_label(e, 14);
}

proof fn lemma_has_payload(s: Seq<char>, label: Seq<char>, p: Seq<char>)
    requires
        forall|i: int| 0 <= i < label.len() ==> #[trigger] label[i] != ':',
    ensures
        payload(s + "/"@ + label + ":"@ + p, s, true) == Some(p),
        payload(s + "/"@ + label + ":"@ + p, s, false) == Some(p),
{
    reveal_strlit("/");
    reveal_strlit(":");
    let z = s + "/"@ + label + ":"@ + p;
    let rest = z.skip(s.len() as int + 1);
    assert(rest =~= label + ":"@ + p);
    assert forall|i: int| 0 <= i < label.len() implies rest[i] != ':' by {
        assert(rest[i] == label[i]);
    }
    lemma_find_char_is(rest, ':', label.len() as int);
    assert(rest.skip(label.len() as int + 1) =~= p);
}

proof fn lemma_toned_settled(l: Seq<Seq<char>>, g: Seq<char>)
    requires
        all_settled(l),
        g == ": PickOne"@ || g == "/Color Mode: PickOne"@,
    ensures
        all_settled(toned(l, tone_head() + g)),
    decreases l.len(),
{
    if l.len() > 0 {
        let f = tone_head() + g;
        let rest = l.skip(1);
        let x = l[0];
        assert(settled(x));
        assert forall|i: int| 0 <= i < rest.len() implies settled(#[trigger] rest[i]) by {
            assert(settled(l[i + 1]));
        }
        lemma_toned_settled(rest, g);
        lemma_tone_lines_settled();
        let head = toned_line(x, f);
        let all = toned(l, f);
        assert(all == head + toned(rest, f));
        if ends_with(x, f) {
            let pre = x.take(x.len() - f.len());
            assert(x =~= pre + f);
            assert(x =~= pre + tone_head() + g);
            lemma_toned_kid(pre, g);
            lemma_toned_opening(pre, g);
            let y = pre + tone_head() + tone_tail();
            assert(pre + (tone_head() + tone_tail()) =~= y);
            lemma_skip_plain(x, x.len() - f.len());
            reveal_strlit("*OpenUI *ColorModel");
            reveal_strlit("/Tone: PickOne");
            lemma_concat_plain(pre, tone_head());
            lemma_concat_plain(pre + tone_head(), tone_tail());
            assert(settled(y));
        }
        assert forall|i: int| 0 <= i < all.len() implies settled(#[trigger] all[i]) by {
            if i < head.len() {
                assert(all[i] == head[i]);
            } else {
                assert(all[i] == toned(rest, f)[i - head.len()]);
            }
        }
    }
}

// ------------------------------------------------------------------ once and no more

proof fn lemma_contains_in(a: Seq<char>, b: Seq<char>, c: Seq<char>, sub: Seq<char>)
    requires
        contains(b, sub),
    ensures
        contains(a + b + c, sub),
{
    let i = choose|i: int| occurs_at(b, sub, i);
    assert((a + b + c).subrange(i + a.len(), i + a.len() + sub.len()) =~= b.subrange(
        i,
        i + sub.len(),
    ));
    assert(occurs_at(a + b + c, sub, i + a.len()));
}

/// Where replacing changes anything, the replacement shows.
proof fn lemma_replacement_shows(s: Seq<char>, from: Seq<char>, to: Seq<char>, sub: Seq<char>)
    requires
        contains(to, sub),
        replace(s, from, to) != s,
    ensures
        contains(replace(s, from, to), sub),
    decreases s.len(),
{
    if from.len() > 0 && s.len() >= from.len() {
        if starts_with(s, from) {
            let rest = replace(s.skip(from.len() as int), from, to);
            lemma_contains_in(Seq::empty(), to, rest, sub);
            assert(Seq::<char>::empty() + to + rest =~= to + rest);
        } else {
            let rest = s.skip(1);
            if replace(rest, from, to) == rest {
                assert(seq![s[0]] + rest =~= s);
            }
            lemma_replacement_shows(rest, from, to, sub);
            lemma_contains_in(seq![s[0]], replace(rest, from, to), Seq::empty(), sub);
            assert(seq![s[0]] + replace(rest, from, to) + Seq::<char>::empty() =~= seq![s[0]]
                + replace(rest, from, to));
        }
    }
}

/// A text that got the black and white choice gets no second one.
proof fn lemma_black_and_white_once(t: Seq<char>)
    ensures
        with_black_and_white(with_black_and_white(t)) == with_black_and_white(t),
{
    let sub = "*ColorModel FastGray"@;
    let u = with_black_and_white(t);
    if u != t {
        let f1 = "*OpenUI *ColorModel: PickOne\n"@;
        let f2 = "*OpenUI *ColorModel/Color Mode: PickOne\n"@;
        assert(contains(TONE_MENU@, sub)) by {
            lemma_tone_menu();
            reveal_strlit("*ColorModel FastGray/Black and white: \"\"");
            reveal_strlit("*ColorModel FastGray");
            let c = tone_choice().push('\n');
            assert(c.subrange(0, 20) =~= sub);
            assert(occurs_at(c, sub, 0));
            lemma_contains_in(
                (tone_head() + tone_tail()).push('\n'),
                c,
                tone_english().push('\n'),
                sub,
            );
        }
        let a = replace(t, f1, TONE_MENU@);
        if a != t {
            lemma_replacement_shows(t, f1, TONE_MENU@, sub);
        }
        if replace(a, f2, TONE_MENU@) != a {
            lemma_replacement_shows(a, f2, TONE_MENU@, sub);
        }
        assert(contains(u, sub));
    }
}

/// The lines that are kept: all but those of the menu that repeats the labels.
pub open spec fn kept_lines(ppd: Seq<char>) -> Seq<Seq<char>> {
    without_menu(lines(ppd), "print-content-optimize"@, false)
}

/// The kept lines with their margins and labels.
spec fn own_lines(ppd: Seq<char>) -> Seq<Seq<char>> {
    kid_lines(margin_lines(kept_lines(ppd)))
}

/// The lines of the result: those of its own, with the tone menu in them where it is put in.
spec fn result_lines(ppd: Seq<char>) -> Seq<Seq<char>> {
    let l = own_lines(ppd);
    let t = unlines(l);
    if !contains(t, "*ColorModel FastGray"@) && contains(t, "*OpenUI *ColorModel"@) {
        let a = toned(l, tone_head() + ": PickOne"@);
        if !contains(unlines(a), "*OpenUI *ColorModel/Tone"@) {
            toned(a, tone_head() + "/Color Mode: PickOne"@)
        } else {
            a
        }
    } else {
        l
    }
}

proof fn lemma_settled_plain(l: Seq<Seq<char>>)
    requires
        all_settled(l),
    ensures
        all_plain(l),
{
    assert forall|i: int| 0 <= i < l.len() implies plain(#[trigger] l[i]) by {
        assert(settled(l[i]));
    }
}

proof fn lemma_own_lines(ppd: Seq<char>)
    requires
        no_returns(ppd),
    ensures
        all_settled(own_lines(ppd)),
        with_black_and_white(unlines(own_lines(ppd))) == kid_labelled(ppd),
        all_plain(kept_lines(ppd)),
{
    let name = "print-content-optimize"@;
    let kept = kept_lines(ppd);
    lemma_lines_plain(ppd);
    lemma_without_menu(lines(ppd), name, false);
    lemma_lines_unlines(kept);
    let m = margin_lines(kept);
    reveal_strlit("*OpenUI *");
    assert forall|i: int| 0 <= i < m.len() implies plain(#[trigger] m[i]) && !starts_with(
        m[i],
        opening(),
    ) by {
        assert(plain(kept[i]));
        assert(!starts_with(kept[i], opening()));
        lemma_margin_plain(kept[i], kept);
        lemma_margin_start(kept[i], kept);
        lemma_leads(m[i], opening());
        if leads(m[i], opening()) {
            assert(m[i][1] == opening()[1]);
        }
    }
    lemma_lines_unlines(m);
    let l = own_lines(ppd);
    assert forall|i: int| 0 <= i < l.len() implies settled(#[trigger] l[i]) by {
        assert(plain(m[i]));
        lemma_kid_line_settled(m[i]);
    }
}

proof fn lemma_result_lines(ppd: Seq<char>)
    requires
        no_returns(ppd),
    ensures
        all_settled(result_lines(ppd)),
        kid_labelled(ppd) == unlines(result_lines(ppd)),
        lines(kid_labelled(ppd)) == result_lines(ppd),
{
    let l = own_lines(ppd);
    lemma_own_lines(ppd);
    lemma_settled_plain(l);
    let (g1, g2) = (": PickOne"@, "/Color Mode: PickOne"@);
    let (f1, f2) = (tone_head() + g1, tone_head() + g2);
    reveal_strlit("*OpenUI *ColorModel: PickOne\n");
    reveal_strlit("*OpenUI *ColorModel/Color Mode: PickOne\n");
    reveal_strlit("*OpenUI *ColorModel");
    reveal_strlit(": PickOne");
    reveal_strlit("/Color Mode: PickOne");
    assert(f1.push('\n') =~= "*OpenUI *ColorModel: PickOne\n"@);
    assert(f2.push('\n') =~= "*OpenUI *ColorModel/Color Mode: PickOne\n"@);
    lemma_concat_plain(tone_head(), g1);
    lemma_concat_plain(tone_head(), g2);
    lemma_replace_lines(l, f1);
    lemma_toned_settled(l, g1);
    let a = toned(l, f1);
    lemma_settled_plain(a);
    lemma_replace_lines(a, f2);
    lemma_toned_settled(a, g2);
    lemma_settled_plain(result_lines(ppd));
    lemma_lines_unlines(result_lines(ppd));
}

/// The menu that repeats the labels is gone: no line of the result opens it.
pub proof fn lemma_menu_is_gone(ppd: Seq<char>)
    requires
        no_returns(ppd),
    ensures
        forall|i: int|
            0 <= i < lines(kid_labelled(ppd)).len() ==> !starts_with(
                #[trigger] lines(kid_labelled(ppd))[i],
                "*OpenUI *print-content-optimize"@,
            ),
{
    lemma_result_lines(ppd);
    lemma_opening();
    let l = result_lines(ppd);
    assert forall|i: int| 0 <= i < l.len() implies !starts_with(
        #[trigger] l[i],
        "*OpenUI *print-content-optimize"@,
    ) by {
        assert(settled(l[i]));
    }
}

proof fn lemma_opening()
    ensures
        opening() == "*OpenUI *print-content-optimize"@,
{
    reveal_strlit("*OpenUI *");
    reveal_strlit("print-content-optimize");
    reveal_strlit("*OpenUI *print-content-optimize");
    assert(opening() =~= "*OpenUI *print-content-optimize"@);
}

/// What has the labels keeps them as they are, where its margins stay as they are.
pub proof fn lemma_labels_settle_with_margins(ppd: Seq<char>)
    requires
        no_returns(ppd),
        zero_margins(kid_labelled(ppd)) == kid_labelled(ppd),
    ensures
        kid_labelled(kid_labelled(ppd)) == kid_labelled(ppd),
{
    let t = kid_labelled(ppd);
    let l = result_lines(ppd);
    lemma_result_lines(ppd);
    lemma_opening();
    assert forall|i: int| 0 <= i < l.len() implies !starts_with(
        #[trigger] l[i],
        "*OpenUI *"@ + "print-content-optimize"@,
    ) by {
        assert(settled(l[i]));
    }
    lemma_no_menu(l, "print-content-optimize"@);
    assert(menu_stripped(t, "print-content-optimize"@) == t);
    assert(kid_lines(l) =~= l) by {
        assert forall|i: int| 0 <= i < l.len() implies kid_lines(l)[i] == l[i] by {
            assert(settled(l[i]));
        }
    }
    lemma_own_lines(ppd);
    lemma_black_and_white_once(unlines(own_lines(ppd)));
}

proof fn lemma_toned_keeps(l: Seq<Seq<char>>, f: Seq<char>, z: Seq<char>)
    requires
        l.contains(z),
        !ends_with(z, f),
    ensures
        toned(l, f).contains(z),
    decreases l.len(),
{
    let k = choose|k: int| 0 <= k < l.len() && l[k] == z;
    let head = toned_line(l[0], f);
    let all = toned(l, f);
    if k == 0 {
        assert(all[0] == z);
    } else {
        assert(l.skip(1)[k - 1] == z);
        lemma_toned_keeps(l.skip(1), f, z);
        let j = choose|j: int| 0 <= j < toned(l.skip(1), f).len() && toned(l.skip(1), f)[j] == z;
        assert(all[head.len() + j] == z);
    }
}

/// Every choice with a label for kids that is kept comes back with its label, and with what stood behind
/// the old one. (Unless its line ends like one that opens the tone menu.)
pub proof fn lemma_choices_come_back(ppd: Seq<char>, y: Seq<char>, k: int)
    requires
        no_returns(ppd),
        kept_lines(ppd).contains(y),
        0 <= k < labels().len(),
        choice_line(y, labels()[k]) is Some,
        !ends_with(choice_line(y, labels()[k])->0, "*OpenUI *ColorModel: PickOne"@),
        !ends_with(choice_line(y, labels()[k])->0, "*OpenUI *ColorModel/Color Mode: PickOne"@),
    ensures
        lines(kid_labelled(ppd)).contains(choice_line(y, labels()[k])->0),
{
    let b = labels()[k];
    let z = choice_line(y, b)->0;
    let kept = kept_lines(ppd);
    let l = own_lines(ppd);
    lemma_result_lines(ppd);
    lemma_own_label(y, k);
    lemma_labels_sound();
    assert(sound(b));
    lemma_names(b);
    lemma_choice_is(y, b);
    lemma_margin_start(y, kept);
    assert(y[1] == star(b)[1]);
    let i = choose|i: int| 0 <= i < kept.len() && kept[i] == y;
    assert(l[i] == z);
    reveal_strlit("*OpenUI *ColorModel: PickOne");
    reveal_strlit("*OpenUI *ColorModel/Color Mode: PickOne");
    reveal_strlit("*OpenUI *ColorModel");
    reveal_strlit(": PickOne");
    reveal_strlit("/Color Mode: PickOne");
    let f1 = tone_head() + ": PickOne"@;
    let f2 = tone_head() + "/Color Mode: PickOne"@;
    assert(f1 =~= "*OpenUI *ColorModel: PickOne"@);
    assert(f2 =~= "*OpenUI *ColorModel/Color Mode: PickOne"@);
    lemma_toned_keeps(l, f1, z);
    lemma_toned_keeps(toned(l, f1), f2, z);
}

// ------------------------------------------------------------------ margins that stay

proof fn lemma_margin_effect(line: Seq<char>, l: Seq<Seq<char>>)
    ensures
        margin_line(line, l) == line || line.len() > 1 && (line[1] == 'I' || line[1] == 'H')
            && margin_line(line, l).last() == '"',
{
    reveal_strlit("*ImageableArea ");
    reveal_strlit("*HWMargins:");
    reveal_strlit("\"");
    lemma_leads(line, "*ImageableArea "@);
    lemma_leads(line, "*HWMargins:"@);
    if leads(line, "*ImageableArea "@) {
        assert(line[1] == "*ImageableArea "@[1]);
    }
    if leads(line, "*HWMargins:"@) {
        assert(line[1] == "*HWMargins:"@[1]);
    }
}

/// A line that begins unlike a paper's tells none.
proof fn lemma_no_paper(x: Seq<char>)
    requires
        x.len() <= 3 || x[1] != 'P' || x[3] != 'p',
    ensures
        paper_in(x) is None,
{
    reveal_strlit("*PaperDimension ");
    lemma_leads(x, "*PaperDimension "@);
    if leads(x, "*PaperDimension "@) {
        assert(x[1] == "*PaperDimension "@[1]);
        assert(x[3] == "*PaperDimension "@[3]);
    }
}

/// Where a label or a title changes a line, the line before and the one after tell no paper, and neither
/// is one of margins.
proof fn lemma_kid_effect(y: Seq<char>)
    ensures
        paper_in(kid_line(y)) == paper_in(y),
        kid_line(y) == y || kid_line(y).len() > 1 && kid_line(y)[1] != 'I' && kid_line(y)[1] != 'H'
            && y.len() > 1 && y[1] != 'I' && y[1] != 'H',
{
    let l = labels();
    let z = kid_line(y);
    if labelled_line(y, l) is Some {
        lemma_labels_sound();
        lemma_first_for(y, l);
        let b = l[first_for(y, l)->0];
        assert(sound(b));
        lemma_names(b);
        lemma_choice_is(y, b);
        let bare = choice_line(y, b) is Some;
        let s = if bare {
            star(b)
        } else {
            english(b)
        };
        lemma_relabelled(y, s, b.label@, bare);
        assert(y[1] == s[1] && z[1] == s[1]);
        reveal_strlit("*");
        if s[1] == 'P' {
            assert(s[3] == b.keyword@[2]);
            assert(y[3] == s[3] && z[3] == s[3]);
        }
        lemma_no_paper(y);
        lemma_no_paper(z);
    } else if z != y {
        reveal_strlit("*OpenUI *cupsPrintQuality/Print style: PickOne");
        reveal_strlit("*OpenUI *cupsPrintQuality: PickOne");
        reveal_strlit("*OpenUI *cupsPrintQuality/");
        reveal_strlit("*OpenUI *MediaType/Paper type: PickOne");
        reveal_strlit("*OpenUI *MediaType: PickOne");
        reveal_strlit("*OpenUI *MediaType/");
        reveal_strlit("*en_US.Translation cupsPrintQuality/Print style: \"\"");
        reveal_strlit("*en_US.Translation cupsPrintQuality/");
        lemma_leads(y, "*OpenUI *cupsPrintQuality/"@);
        lemma_leads(y, "*OpenUI *MediaType/"@);
        lemma_leads(y, "*en_US.Translation cupsPrintQuality/"@);
        if leads(y, "*OpenUI *cupsPrintQuality/"@) {
            assert(y[1] == "*OpenUI *cupsPrintQuality/"@[1]);
        } else if leads(y, "*OpenUI *MediaType/"@) {
            assert(y[1] == "*OpenUI *MediaType/"@[1]);
        } else if leads(y, "*en_US.Translation cupsPrintQuality/"@) {
            assert(y[1] == "*en_US.Translation cupsPrintQuality/"@[1]);
        }
        assert(y[1] == 'O' || y[1] == 'e');
        assert(z[1] == 'O' || z[1] == 'e');
        lemma_no_paper(y);
        lemma_no_paper(z);
    }
}

/// The papers have the same widths in both.
spec fn same_widths(m: Seq<Seq<char>>, l: Seq<Seq<char>>) -> bool {
    forall|n: Seq<char>| #[trigger] paper_width(m, n) == paper_width(l, n)
}

proof fn lemma_same_papers(a: Seq<Seq<char>>, b: Seq<Seq<char>>, n: Seq<char>)
    requires
        a.len() == b.len(),
        forall|i: int| 0 <= i < a.len() ==> paper_in(#[trigger] a[i]) == paper_in(b[i]),
    ensures
        paper_width(a, n) == paper_width(b, n),
    decreases a.len(),
{
    if a.len() > 0 {
        assert(paper_in(a[a.len() - 1]) == paper_in(b[a.len() - 1]));
        assert forall|i: int| 0 <= i < a.len() - 1 implies paper_in(#[trigger] a.drop_last()[i])
            == paper_in(b.drop_last()[i]) by {
            assert(paper_in(a[i]) == paper_in(b[i]));
        }
        lemma_same_papers(a.drop_last(), b.drop_last(), n);
    }
}

proof fn lemma_width_concat(a: Seq<Seq<char>>, b: Seq<Seq<char>>, n: Seq<char>)
    ensures
        paper_width(a + b, n) == if paper_width(b, n) is Some {
            paper_width(b, n)
        } else {
            paper_width(a, n)
        },
    decreases b.len(),
{
    if b.len() == 0 {
        assert(a + b =~= a);
    } else {
        assert((a + b).drop_last() =~= a + b.drop_last());
        lemma_width_concat(a, b.drop_last(), n);
    }
}

proof fn lemma_width_one(x: Seq<char>, n: Seq<char>)
    ensures
        paper_in(x) is None ==> paper_width(seq![x], n) is None,
{
    let l = seq![x];
    assert(l.drop_last() =~= Seq::<Seq<char>>::empty());
    assert(l.last() == x);
    assert(paper_width(l.drop_last(), n) is None);
}

/// A line keeps its margins.
spec fn stays(x: Seq<char>, l: Seq<Seq<char>>) -> bool {
    forall|m: Seq<Seq<char>>| #[trigger] same_widths(m, l) ==> margin_line(x, m) == x
}

/// A line that ends like `f` is `f`.
spec fn alone(l: Seq<Seq<char>>, f: Seq<char>) -> bool {
    forall|i: int| 0 <= i < l.len() && ends_with(#[trigger] l[i], f) ==> l[i] == f
}

proof fn lemma_tone_lines_stay(l: Seq<Seq<char>>)
    ensures
        stays(tone_head() + tone_tail(), l),
        stays(tone_choice(), l),
        stays(tone_english(), l),
        paper_in(tone_head() + tone_tail()) is None,
        paper_in(tone_choice()) is None,
        paper_in(tone_english()) is None,
{
    reveal_strlit("*OpenUI *ColorModel");
    reveal_strlit("/Tone: PickOne");
    reveal_strlit("*ColorModel FastGray/Black and white: \"\"");
    reveal_strlit("*en_US.ColorModel FastGray/Black and white: \"\"");
    let (a, b, c) = (tone_head() + tone_tail(), tone_choice(), tone_english());
    assert(a[1] == 'O' && b[1] == 'C' && c[1] == 'e');
    lemma_no_paper(a);
    lemma_no_paper(b);
    lemma_no_paper(c);
    assert forall|m: Seq<Seq<char>>| #[trigger] same_widths(m, l) implies margin_line(a, m) == a
        && margin_line(b, m) == b && margin_line(c, m) == c by {
        lemma_margin_effect(a, m);
        lemma_margin_effect(b, m);
        lemma_margin_effect(c, m);
    }
}

proof fn lemma_toned_stays(l: Seq<Seq<char>>, g: Seq<char>, kept: Seq<Seq<char>>)
    requires
        g == ": PickOne"@ || g == "/Color Mode: PickOne"@,
        alone(l, tone_head() + g),
        forall|i: int| 0 <= i < l.len() ==> stays(#[trigger] l[i], kept),
    ensures
        ({
            let t = toned(l, tone_head() + g);
            &&& forall|i: int| 0 <= i < t.len() ==> stays(#[trigger] t[i], kept)
            &&& same_widths(t, l)
            &&& g == ": PickOne"@ && alone(l, tone_head() + "/Color Mode: PickOne"@) ==> alone(
                t,
                tone_head() + "/Color Mode: PickOne"@,
            )
        }),
    decreases l.len(),
{
    let f = tone_head() + g;
    let f2 = tone_head() + "/Color Mode: PickOne"@;
    let t = toned(l, f);
    if l.len() > 0 {
        let rest = l.skip(1);
        let x = l[0];
        assert(stays(x, kept));
        assert forall|i: int| 0 <= i < rest.len() implies stays(#[trigger] rest[i], kept) by {
            assert(stays(l[i + 1], kept));
        }
        assert forall|i: int| 0 <= i < rest.len() && ends_with(#[trigger] rest[i], f) implies rest[i]
            == f by {
            assert(l[i + 1] == rest[i]);
        }
        if alone(l, f2) {
            assert forall|i: int| 0 <= i < rest.len() && ends_with(#[trigger] rest[i], f2) implies
                rest[i] == f2 by {
                assert(l[i + 1] == rest[i]);
            }
        }
        lemma_toned_stays(rest, g, kept);
        lemma_tone_lines_stay(kept);
        let head = toned_line(x, f);
        let tail = toned(rest, f);
        assert(t == head + tail);
        let (a, b, c) = (tone_head() + tone_tail(), tone_choice(), tone_english());
        if ends_with(x, f) {
            assert(x == f);
            assert(x.take(0) + a =~= a);
            assert(head =~= seq![a, b, c]);
        }
        assert forall|i: int| 0 <= i < t.len() implies stays(#[trigger] t[i], kept) by {
            if i < head.len() {
                assert(t[i] == head[i]);
            } else {
                assert(t[i] == tail[i - head.len()]);
            }
        }
        assert forall|n: Seq<char>| #[trigger] paper_width(t, n) == paper_width(l, n) by {
            assert(l =~= seq![x] + rest);
            lemma_width_concat(seq![x], rest, n);
            lemma_width_concat(head, tail, n);
            assert(paper_width(tail, n) == paper_width(rest, n));
            if ends_with(x, f) {
                reveal_strlit("*OpenUI *ColorModel");
                reveal_strlit(": PickOne");
                reveal_strlit("/Color Mode: PickOne");
                assert(x[1] == 'O');
                lemma_no_paper(x);
                lemma_width_one(x, n);
                lemma_width_concat(seq![a, b], seq![c], n);
                lemma_width_concat(seq![a], seq![b], n);
                assert(seq![a, b] + seq![c] =~= head);
                assert(seq![a] + seq![b] =~= seq![a, b]);
                lemma_width_one(a, n);
                lemma_width_one(b, n);
                lemma_width_one(c, n);
            }
        }
        if g == ": PickOne"@ && alone(l, f2) {
            reveal_strlit("*OpenUI *ColorModel");
            reveal_strlit("/Tone: PickOne");
            reveal_strlit("/Color Mode: PickOne");
            reveal_strlit("*ColorModel FastGray/Black and white: \"\"");
            reveal_strlit("*en_US.ColorModel FastGray/Black and white: \"\"");
            assert forall|i: int| 0 <= i < t.len() && ends_with(#[trigger] t[i], f2) implies t[i]
                == f2 by {
                if i < head.len() {
                    assert(t[i] == head[i]);
                    if ends_with(x, f) {
                        lemma_last(t[i], f2);
                        assert(f2.len() == 39 && f2.last() == 'e');
                        assert(a.len() == 33 && b.last() == '"' && c.last() == '"');
                    } else {
                        assert(l[0] == t[i]);
                    }
                } else {
                    assert(t[i] == tail[i - head.len()]);
                }
            }
        }
    } else {
        assert(t =~= l);
    }
}

proof fn lemma_last(x: Seq<char>, f: Seq<char>)
    requires
        ends_with(x, f),
        f.len() > 0,
    ensures
        x.last() == f.last(),
{
    let s = x.skip(x.len() - f.len());
    assert(s.last() == x.last());
}

/// A line that is alone is alone with its margins and label.
proof fn lemma_stays_alone(y: Seq<char>, l: Seq<Seq<char>>, g: Seq<char>)
    requires
        g == ": PickOne"@ || g == "/Color Mode: PickOne"@,
        ends_with(y, tone_head() + g) ==> y == tone_head() + g,
    ensures
        ends_with(kid_line(margin_line(y, l)), tone_head() + g) ==> kid_line(margin_line(y, l))
            == tone_head() + g,
{
    reveal_strlit("*OpenUI *ColorModel");
    reveal_strlit(": PickOne");
    reveal_strlit("/Color Mode: PickOne");
    let f = tone_head() + g;
    let x = margin_line(y, l);
    let z = kid_line(x);
    let k = labels();
    assert(f[0] == '*' && f[1] == 'O' && f.last() == 'e');
    lemma_margin_effect(y, l);
    lemma_margin_start(y, l);
    lemma_kid_effect(x);
    if ends_with(z, f) && z != y {
        lemma_last(z, f);
        assert(x == y);
        let n = z.len() - f.len();
        assert(z.skip(n)[0] == z[n]);
        assert(z.skip(n)[1] == z[n + 1]);
        if labelled_line(y, k) is Some {
            lemma_labels_sound();
            lemma_first_for(y, k);
            let b = k[first_for(y, k)->0];
            assert(sound(b));
            lemma_names(b);
            lemma_choice_is(y, b);
            let bare = choice_line(y, b) is Some;
            let s = if bare {
                star(b)
            } else {
                english(b)
            };
            lemma_end_in_payload(y, s, b.label@, bare, f);
            assert(y[1] == s[1]);
        } else {
            reveal_strlit("*OpenUI *cupsPrintQuality/Print style: PickOne");
            reveal_strlit("*OpenUI *MediaType/Paper type: PickOne");
            reveal_strlit("*en_US.Translation cupsPrintQuality/Print style: \"\"");
            assert(f.len() == 28 || f.len() == 39);
            if z == "*OpenUI *cupsPrintQuality/Print style: PickOne"@ {
                assert(n == 18 || n == 7);
            } else if z == "*OpenUI *MediaType/Paper type: PickOne"@ {
                assert(n == 10);
            }
        }
    }
}

/// An end with a star stands behind the label, and so at the end of the line as it was.
proof fn lemma_end_in_payload(
    y: Seq<char>,
    s: Seq<char>,
    label: Seq<char>,
    bare: bool,
    f: Seq<char>,
)
    requires
        payload(y, s, bare) is Some,
        unmarked(label),
        s.len() >= 2,
        s[1] != 'O',
        forall|i: int| 1 <= i < s.len() ==> #[trigger] s[i] != '*',
        f.len() >= 2,
        f[0] == '*',
        f[1] == 'O',
        ends_with(relabelled(y, s, label, bare)->0, f),
    ensures
        ends_with(y, f),
{
    reveal_strlit("/");
    reveal_strlit(":");
    let p = payload(y, s, bare)->0;
    let z = s + "/"@ + label + ":"@ + p;
    let n = z.len() - f.len();
    let m = s.len() as int;
    let q = m + 1 + label.len();
    assert(z.skip(n)[0] == z[n]);
    assert(z.skip(n)[1] == z[n + 1]);
    assert(n > q) by {
        if n < m {
            assert(z[n] == s[n]);
            if n == 0 {
                assert(z[1] == s[1]);
            }
        } else if n == m {
            assert(z[n] == '/');
        } else if n < q {
            assert(z[n] == label[n - m - 1]);
        } else if n == q {
            assert(z[n] == ':');
        }
    }
    assert(p.len() >= f.len());
    let rest = y.skip(m + 1);
    lemma_find_char(rest, ':');
    assert(p == y.skip(y.len() - p.len())) by {
        if bare && y[m] == ':' {
            assert(p.len() == y.len() - m - 1);
        } else {
            let j = find_char(rest, ':')->0;
            assert(p == rest.skip(j + 1));
            assert(rest.skip(j + 1) =~= y.skip(m + 1 + j + 1));
            assert(p.len() == y.len() - (m + 1 + j + 1));
        }
    }
    assert(y.skip(y.len() - f.len()) =~= z.skip(n)) by {
        assert forall|i: int| 0 <= i < f.len() implies y.skip(y.len() - f.len())[i] == z.skip(n)[i] by {
            assert(z[n + i] == p[n + i - q - 1]);
            assert(p[n + i - q - 1] == y[y.len() - p.len() + n + i - q - 1]);
        }
    }
}

/// No upper edge of the margins ends in a quotation mark.
pub open spec fn edges_unquoted(l: Seq<Seq<char>>) -> bool {
    forall|i: int|
        0 <= i < l.len() ==> (upper_edge(#[trigger] l[i], l) matches Some(t) ==> t.last() != '"')
}

/// What opens the tone menu stands on a line of its own.
pub open spec fn tone_alone(l: Seq<Seq<char>>) -> bool {
    forall|i: int|
        0 <= i < l.len() ==> {
            &&& ends_with(#[trigger] l[i], "*OpenUI *ColorModel: PickOne"@) ==> l[i]
                == "*OpenUI *ColorModel: PickOne"@
            &&& ends_with(l[i], "*OpenUI *ColorModel/Color Mode: PickOne"@) ==> l[i]
                == "*OpenUI *ColorModel/Color Mode: PickOne"@
        }
}

/// What has the labels keeps them as they are: to label it again changes nothing.
pub proof fn lemma_labels_settle(ppd: Seq<char>)
    requires
        no_returns(ppd),
        edges_unquoted(kept_lines(ppd)),
        tone_alone(kept_lines(ppd)),
    ensures
        kid_labelled(kid_labelled(ppd)) == kid_labelled(ppd),
{
    let kept = kept_lines(ppd);
    let m = margin_lines(kept);
    let own = own_lines(ppd);
    let res = result_lines(ppd);
    let (g1, g2) = (": PickOne"@, "/Color Mode: PickOne"@);
    let (f1, f2) = (tone_head() + g1, tone_head() + g2);
    reveal_strlit("*OpenUI *ColorModel: PickOne");
    reveal_strlit("*OpenUI *ColorModel/Color Mode: PickOne");
    reveal_strlit("*OpenUI *ColorModel");
    reveal_strlit(": PickOne");
    reveal_strlit("/Color Mode: PickOne");
    assert(f1 =~= "*OpenUI *ColorModel: PickOne"@);
    assert(f2 =~= "*OpenUI *ColorModel/Color Mode: PickOne"@);
    assert forall|i: int| 0 <= i < own.len() implies {
        &&& paper_in(#[trigger] own[i]) == paper_in(kept[i])
        &&& stays(own[i], kept)
        &&& ends_with(own[i], f1) ==> own[i] == f1
        &&& ends_with(own[i], f2) ==> own[i] == f2
    } by {
        let y = kept[i];
        assert(own[i] == kid_line(m[i]));
        assert(m[i] == margin_line(y, kept));
        lemma_margin_effect(y, kept);
        lemma_margin_start(y, kept);
        lemma_kid_effect(m[i]);
        if m[i] != y {
            lemma_no_paper(y);
            lemma_no_paper(m[i]);
        }
        lemma_stays_alone(y, kept, g1);
        lemma_stays_alone(y, kept, g2);
        assert forall|w: Seq<Seq<char>>| #[trigger] same_widths(w, kept) implies margin_line(
            own[i],
            w,
        ) == own[i] by {
            if own[i] == m[i] {
                lemma_margin_line_twice(y, kept, w);
            } else {
                lemma_margin_effect(own[i], w);
            }
        }
    }
    assert forall|n: Seq<char>| #[trigger] paper_width(own, n) == paper_width(kept, n) by {
        lemma_same_papers(own, kept, n);
    }
    lemma_toned_stays(own, g1, kept);
    let a = toned(own, f1);
    lemma_toned_stays(a, g2, kept);
    assert(same_widths(res, kept)) by {
        assert forall|n: Seq<char>| #[trigger] paper_width(res, n) == paper_width(kept, n) by {
            assert(paper_width(own, n) == paper_width(kept, n));
            assert(paper_width(a, n) == paper_width(own, n));
            assert(paper_width(toned(a, f2), n) == paper_width(a, n));
        }
    }
    lemma_result_lines(ppd);
    assert(margin_lines(res) =~= res) by {
        assert forall|i: int| 0 <= i < res.len() implies margin_lines(res)[i] == res[i] by {
            assert(stays(res[i], kept));
        }
    }
    lemma_labels_settle_with_margins(ppd);
}

} // verus!
