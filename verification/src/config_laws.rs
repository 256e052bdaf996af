//! Laws of configuration loading: what every loaded configuration
//! guarantees, how the label charset is cleaned, and how depth labels read
//! back.

use vstd::prelude::*;
use crate::config::{
    ConfigModel, Depth, config_wf, dedup, default_config, default_depth_list, depth_label, depth_of,
    find_profile_spec, load_spec, profile_from, profiles_from, select_profile_spec, apply_toml_spec,
    with_default_profile,
};
use crate::text::{
    ascii_lower, all_digits, decimal, digits_value, eq_ignore_case, is_digit, is_whitespace,
    leading_ws, parse_u32_spec, trailing_ws, trim, unsigned_digits,
};
use crate::toml_doc::{TomlTree, lookup_str, toml_document};
use crate::render::hex_color;
use crate::style::Color;

verus! {

/// The configuration before profile selection keeps a charset, a profile
/// list and a depth list for every profile.
pub open spec fn config_parts_wf(c: ConfigModel) -> bool {
    &&& c.labels.len() > 0
    &&& c.profiles.len() > 0
    &&& forall|i: int| 0 <= i < c.profiles.len() ==> (#[trigger] c.profiles[i]).1.len() > 0
}

proof fn lemma_find_profile_bound(ps: Seq<(Seq<char>, Seq<Depth>)>, name: Seq<char>)
    ensures
        find_profile_spec(ps, name) matches Some(i) ==> i < ps.len(),
    decreases ps.len(),
{
    if ps.len() > 0 {
        lemma_find_profile_bound(ps.drop_last(), name);
    }
}

proof fn lemma_dedup_basics(s: Seq<char>)
    ensures
        s.len() > 0 ==> dedup(s).len() > 0,
        forall|c: char| s.contains(c) <==> dedup(s).contains(c),
        forall|i: int, j: int| 0 <= i < j < dedup(s).len() ==> dedup(s)[i] != dedup(s)[j],
    decreases s.len(),
{
    if s.len() > 0 {
        let p = s.drop_last();
        lemma_dedup_basics(p);
        let d = dedup(p);
        assert(s =~= p.push(s.last()));
        assert forall|c: char| s.contains(c) implies dedup(s).contains(c) by {
            let k = choose|k: int| 0 <= k < s.len() && s[k] == c;
            if k < p.len() {
                assert(p[k] == c);
                assert(p.contains(c));
                assert(d.contains(c));
                let j = choose|j: int| 0 <= j < d.len() && d[j] == c;
                assert(dedup(s)[j] == c);
            } else if !d.contains(s.last()) {
                assert(dedup(s)[d.len() as int] == c);
            }
        }
        assert forall|c: char| dedup(s).contains(c) implies s.contains(c) by {
            let k = choose|k: int| 0 <= k < dedup(s).len() && dedup(s)[k] == c;
            if !d.contains(s.last()) && k == d.len() {
                assert(s[s.len() - 1] == c);
            } else {
                assert(d[k] == c);
                assert(d.contains(c));
                assert(p.contains(c));
                let m = choose|m: int| 0 <= m < p.len() && p[m] == c;
                assert(s[m] == c);
            }
        }
        if d.contains(s.last()) {
        } else {
            assert forall|i: int, j: int| 0 <= i < j < dedup(s).len() implies dedup(s)[i] != dedup(s)[j] by {
                if j == d.len() {
                    assert(dedup(s)[i] == d[i]);
                    assert(dedup(s)[j] == s.last());
                }
            }
        }
    }
}

proof fn lemma_depths_nonempty(ps: Seq<(Seq<char>, TomlTree)>)
    ensures
        forall|i: int| 0 <= i < profiles_from(ps).len() ==> (#[trigger] profiles_from(ps)[i]).1.len() > 0,
    decreases ps.len(),
{
    if ps.len() > 0 {
        let prev = profiles_from(ps.drop_last());
        lemma_depths_nonempty(ps.drop_last());
        match profile_from(ps.last().0, ps.last().1) {
            Some(q) => {
                assert(q.1.len() > 0);
                assert(profiles_from(ps) == prev.push(q));
                assert forall|i: int| 0 <= i < profiles_from(ps).len() implies (#[trigger] profiles_from(ps)[i]).1.len() > 0 by {
                    if i < prev.len() {
                        assert(profiles_from(ps)[i] == prev[i]);
                    }
                }
            },
            None => {
                assert(profiles_from(ps) == prev);
            },
        }
    }
}

proof fn lemma_dedup_nonempty(s: Seq<char>)
    ensures
        s.len() > 0 ==> dedup(s).len() > 0,
    decreases s.len(),
{
    if s.len() > 0 {
        lemma_dedup_nonempty(s.drop_last());
    }
}

proof fn lemma_with_default_depths(parsed: Seq<(Seq<char>, Seq<Depth>)>)
    requires
        forall|i: int| 0 <= i < parsed.len() ==> (#[trigger] parsed[i]).1.len() > 0,
    ensures
        with_default_profile(parsed).len() > 0,
        forall|i: int| 0 <= i < with_default_profile(parsed).len() ==> (#[trigger] with_default_profile(parsed)[i]).1.len() > 0,
{
    let w = with_default_profile(parsed);
    assert forall|i: int| 0 <= i < w.len() implies (#[trigger] w[i]).1.len() > 0 by {
        if i < parsed.len() {
            assert(w[i] == parsed[i]);
        } else {
            assert(w[i] == ("default"@, default_depth_list()));
        }
    }
}

proof fn lemma_apply_keeps_parts(c: ConfigModel, root: TomlTree)
    requires
        config_parts_wf(c),
    ensures
        config_parts_wf(apply_toml_spec(c, root)),
{
    match root {
        TomlTree::Table(e) => {
            let a = apply_toml_spec(c, root);
            assert(a.labels.len() > 0) by {
                match crate::toml_doc::lookup_str(e, "labels"@) {
                    Some(v) => lemma_dedup_nonempty(v),
                    None => {},
                }
            }
            assert(a.profiles.len() > 0 && forall|i: int| 0 <= i < a.profiles.len() ==> (#[trigger] a.profiles[i]).1.len() > 0) by {
                match crate::toml_doc::lookup(e, "profiles"@) {
                    Some(TomlTree::Table(ps)) => {
                        let parsed = profiles_from(ps);
                        lemma_depths_nonempty(ps);
                        if parsed.len() > 0 {
                            lemma_with_default_depths(parsed);
                        }
                    },
                    _ => {},
                }
            }
        },
        _ => {},
    }
}

/// Every loaded configuration, whatever the document and the requested
/// profile, has a non-empty label charset, at least one profile, a
/// non-empty depth cycle in each profile, and an active profile among
/// them.
pub proof fn law_loaded_config_is_well_formed(text: Option<Seq<char>>, profile: Seq<char>)
    ensures
        config_wf(load_spec(text, profile)),
{
    let d = default_config();
    assert(config_parts_wf(d));
    match text {
        Some(t) => match toml_document(t) {
            Ok(tree) => lemma_loaded_document_wf(tree, profile),
            Err(_) => lemma_select_wf(d, profile),
        },
        None => lemma_select_wf(d, profile),
    }
}

proof fn lemma_loaded_document_wf(tree: TomlTree, name: Seq<char>)
    ensures
        config_wf(select_profile_spec(apply_toml_spec(default_config(), tree), name)),
{
    let d = default_config();
    assert(config_parts_wf(d));
    lemma_apply_keeps_parts(d, tree);
    lemma_select_wf(apply_toml_spec(d, tree), name);
}

proof fn lemma_select_wf(c: ConfigModel, name: Seq<char>)
    requires
        config_parts_wf(c),
    ensures
        config_wf(select_profile_spec(c, name)),
{
    lemma_find_profile_bound(c.profiles, name);
    lemma_find_profile_bound(c.profiles, "default"@);
}

proof fn lemma_find_profile_names(ps: Seq<(Seq<char>, Seq<Depth>)>, name: Seq<char>)
    requires
        ps.len() <= usize::MAX,
    ensures
        find_profile_spec(ps, name) matches Some(i) ==> i < ps.len() && eq_ignore_case(ps[i as int].0, name),
    decreases ps.len(),
{
    if ps.len() > 0 {
        lemma_find_profile_names(ps.drop_last(), name);
        if find_profile_spec(ps.drop_last(), name) is Some {
            let i = find_profile_spec(ps.drop_last(), name)->0;
            assert(ps[i as int] == ps.drop_last()[i as int]);
            assert(eq_ignore_case(ps.drop_last()[i as int].0, name));
        } else if eq_ignore_case(ps.last().0, name) {
            assert(find_profile_spec(ps, name) == Some((ps.len() - 1) as usize));
            assert(ps.last() == ps[ps.len() - 1]);
        }
    }
}

proof fn lemma_with_default_has_default(parsed: Seq<(Seq<char>, Seq<Depth>)>)
    ensures
        find_profile_spec(with_default_profile(parsed), "default"@) is Some,
{
    if find_profile_spec(parsed, "default"@) is None {
        let w = parsed.push(("default"@, default_depth_list()));
        assert(w.drop_last() =~= parsed);
        assert(eq_ignore_case(w.last().0, "default"@));
    }
}

proof fn lemma_apply_keeps_default(c: ConfigModel, root: TomlTree)
    requires
        find_profile_spec(c.profiles, "default"@) is Some,
    ensures
        find_profile_spec(apply_toml_spec(c, root).profiles, "default"@) is Some,
{
    match root {
        TomlTree::Table(e) => {
            match crate::toml_doc::lookup(e, "profiles"@) {
                Some(TomlTree::Table(ps)) => {
                    if profiles_from(ps).len() > 0 {
                        lemma_with_default_has_default(profiles_from(ps));
                    }
                },
                _ => {},
            }
        },
        _ => {},
    }
}

/// The profiles before selection, for a document and the built-in
/// defaults.
pub open spec fn loaded_profiles(text: Option<Seq<char>>) -> Seq<(Seq<char>, Seq<Depth>)> {
    match text {
        Some(t) => match toml_document(t) {
            Ok(tree) => apply_toml_spec(default_config(), tree).profiles,
            Err(_) => default_config().profiles,
        },
        None => default_config().profiles,
    }
}

/// A profile named `default` always exists after loading, and the active
/// profile is the one asked for when it exists, else that `default`
/// profile. (The profile list is held in memory, so its length fits in
/// `usize`.)
pub proof fn law_profile_selection(text: Option<Seq<char>>, profile: Seq<char>)
    requires
        loaded_profiles(text).len() <= usize::MAX,
    ensures
        ({
            let c = load_spec(text, profile);
            &&& find_profile_spec(c.profiles, "default"@) is Some
            &&& c.current_profile < c.profiles.len()
            &&& find_profile_spec(c.profiles, profile) is Some ==> eq_ignore_case(c.profiles[c.current_profile as int].0, profile)
            &&& find_profile_spec(c.profiles, profile) is None ==> eq_ignore_case(c.profiles[c.current_profile as int].0, "default"@)
        }),
{
    let d = default_config();
    reveal_strlit("default");
    assert(find_profile_spec(d.profiles, "default"@) is Some) by {
        assert(d.profiles.drop_last() =~= Seq::<(Seq<char>, Seq<Depth>)>::empty());
        assert(eq_ignore_case(d.profiles.last().0, "default"@));
    }
    match text {
        Some(t) => match toml_document(t) {
            Ok(tree) => lemma_apply_keeps_default(d, tree),
            Err(_) => {},
        },
        None => {},
    }
    let ps = loaded_profiles(text);
    assert(load_spec(text, profile).profiles == ps);
    lemma_find_profile_names(ps, profile);
    lemma_find_profile_names(ps, "default"@);
}

/// `k` is the index of the first `c` in `s`.
pub open spec fn first_at(s: Seq<char>, c: char, k: int) -> bool {
    &&& 0 <= k < s.len()
    &&& s[k] == c
    &&& forall|m: int| 0 <= m < k ==> s[m] != c
}

proof fn lemma_first_in_prefix(p: Seq<char>, x: char, c: char, k: int)
    requires
        p.contains(c),
        first_at(p.push(x), c, k),
    ensures
        first_at(p, c, k),
{
    let s = p.push(x);
    let m = choose|m: int| 0 <= m < p.len() && p[m] == c;
    assert(s[m] == c);
    if k >= p.len() {
        assert(m < k);
    }
    assert forall|q: int| 0 <= q < k implies p[q] != c by {
        assert(s[q] == p[q]);
    }
}

proof fn lemma_dedup_order(s: Seq<char>)
    ensures
        forall|i: int, j: int, ki: int, kj: int|
            0 <= i < j < dedup(s).len() && first_at(s, dedup(s)[i], ki) && first_at(s, dedup(s)[j], kj) ==> ki < kj,
    decreases s.len(),
{
    if s.len() > 0 {
        let p = s.drop_last();
        let x = s.last();
        let d = dedup(p);
        lemma_dedup_order(p);
        lemma_dedup_basics(p);
        assert(s =~= p.push(x));
        assert forall|i: int, j: int, ki: int, kj: int|
            0 <= i < j < dedup(s).len() && first_at(s, dedup(s)[i], ki) && first_at(s, dedup(s)[j], kj) implies ki < kj by {
            assert(dedup(s)[i] == d[i]);
            assert(d.contains(d[i]));
            lemma_first_in_prefix(p, x, d[i], ki);
            if j < d.len() {
                assert(dedup(s)[j] == d[j]);
                assert(d.contains(d[j]));
                lemma_first_in_prefix(p, x, d[j], kj);
            } else {
                assert(!d.contains(x));
                assert(dedup(s)[j] == x);
                if kj < p.len() {
                    assert(p[kj] == x);
                    assert(p.contains(x));
                }
            }
        }
    }
}

/// The label charset keeps each character once, in the order of its
/// first occurrence: nothing repeats, exactly the characters of the
/// setting remain, and a character that first appears earlier in the
/// setting comes earlier in the charset.
pub proof fn law_labels_deduplicated(s: Seq<char>)
    ensures
        forall|i: int, j: int| 0 <= i < j < dedup(s).len() ==> dedup(s)[i] != dedup(s)[j],
        forall|c: char| s.contains(c) <==> dedup(s).contains(c),
        forall|i: int, j: int, ki: int, kj: int|
            0 <= i < j < dedup(s).len() && first_at(s, dedup(s)[i], ki) && first_at(s, dedup(s)[j], kj) ==> ki < kj,
        s.len() > 0 ==> dedup(s).len() > 0,
{
    lemma_dedup_basics(s);
    lemma_dedup_order(s);
}

proof fn lemma_decimal_digits(n: nat)
    ensures
        decimal(n).len() > 0,
        all_digits(decimal(n)),
        digits_value(decimal(n)) == n,
    decreases n,
{
    if n < 10 {
        let s = decimal(n);
        assert(s.drop_last() =~= Seq::<char>::empty());
        assert(digits_value(s.drop_last()) == 0);
    } else {
        lemma_decimal_digits(n / 10);
        let s = decimal(n);
        assert(s.drop_last() =~= decimal(n / 10));
    }
}

/// A string that begins and ends with non-whitespace trims to itself.
proof fn lemma_trim_solid(s: Seq<char>)
    requires
        s.len() > 0,
        !is_whitespace(s[0]),
        !is_whitespace(s.last()),
    ensures
        trim(s) == s,
{
    assert(leading_ws(s) == 0);
    assert(s.skip(0) =~= s);
    assert(trailing_ws(s) == 0);
    assert(s.take(s.len() as int) =~= s);
}

proof fn lemma_digits_not_word(ds: Seq<char>, w: Seq<char>)
    requires
        ds.len() > 0,
        all_digits(ds),
        w.len() > 0,
        !is_digit(w[0]),
        !(65 <= (w[0] as u32) && (w[0] as u32) <= 90),
    ensures
        !eq_ignore_case(ds, w),
{
    assert(is_digit(ds[0]));
    assert(ascii_lower(ds[0]) == ds[0]);
    assert(ascii_lower(w[0]) == w[0]);
}

/// Each depth's footer label, read back as a profile entry, names that
/// depth again; the one exception is a zero line count, whose label `0`
/// names no depth.
pub proof fn law_depth_label_parses_back(d: Depth)
    requires
        d != Depth::Lines(0),
    ensures
        depth_of(depth_label(d)) == Some(d),
{
    reveal_strlit("viewport");
    reveal_strlit("unlimited");
    reveal_strlit("all");
    match d {
        Depth::Viewport => {
            lemma_trim_solid("viewport"@);
        },
        Depth::Unlimited => {
            lemma_trim_solid("unlimited"@);
            assert(!eq_ignore_case("unlimited"@, "viewport"@));
        },
        Depth::Lines(n) => {
            let s = decimal(n as nat);
            lemma_decimal_digits(n as nat);
            assert(is_digit(s[0]));
            assert(is_digit(s.last()));
            lemma_trim_solid(s);
            lemma_digits_not_word(s, "viewport"@);
            lemma_digits_not_word(s, "unlimited"@);
            lemma_digits_not_word(s, "all"@);
            assert(unsigned_digits(s) == s);
            assert(parse_u32_spec(s) == Some(n));
        },
    }
}

/// A document that sets nothing, or whose root is not a table, leaves
/// every setting as it was: omitted keys keep their current values.
pub proof fn law_empty_document_changes_nothing(c: ConfigModel, other: TomlTree)
    requires
        !(other is Table),
    ensures
        apply_toml_spec(c, TomlTree::Table(seq![])) == c,
        apply_toml_spec(c, other) == c,
{
    let e: Seq<(Seq<char>, TomlTree)> = seq![];
    assert(crate::toml_doc::lookup(e, "labels"@) is None);
    assert(crate::config::themed(e, c.theme) == c.theme);
}

/// `new` is what the table's `key` makes of a color role that was `old`:
/// the key's color when it holds a valid hex color string, else `old`
/// (key missing, not a string, or not a color).
pub open spec fn set_by_key(e: Seq<(Seq<char>, TomlTree)>, key: Seq<char>, old: Color, new: Color) -> bool {
    &&& (forall|v: Seq<char>, col: Color| lookup_str(e, key) == Some(v) && hex_color(v) == Some(col) ==> new == col)
    &&& (forall|v: Seq<char>| lookup_str(e, key) == Some(v) && hex_color(v) is None ==> new == old)
    &&& (lookup_str(e, key) is None ==> new == old)
}

/// Each of the sixteen color roles is set by its own `color_*` key, and
/// by no other: a valid hex color there replaces the role, anything else
/// (or no such key) keeps it.
pub proof fn law_each_color_key_sets_its_own_role(c: ConfigModel, e: Seq<(Seq<char>, TomlTree)>)
    ensures
        ({
            let a = apply_toml_spec(c, TomlTree::Table(e)).theme;
            &&& set_by_key(e, "color_sel_bg"@, c.theme.sel_bg, a.sel_bg)
            &&& set_by_key(e, "color_sel_fg"@, c.theme.sel_fg, a.sel_fg)
            &&& set_by_key(e, "color_cursor_bg"@, c.theme.cursor_bg, a.cursor_bg)
            &&& set_by_key(e, "color_cursor_fg"@, c.theme.cursor_fg, a.cursor_fg)
            &&& set_by_key(e, "color_gutter_mark"@, c.theme.gutter_cursor, a.gutter_cursor)
            &&& set_by_key(e, "color_gutter_dim"@, c.theme.gutter_dim, a.gutter_dim)
            &&& set_by_key(e, "color_sel_label"@, c.theme.sel_indicator, a.sel_indicator)
            &&& set_by_key(e, "color_footer_dim"@, c.theme.footer_dim, a.footer_dim)
            &&& set_by_key(e, "color_footer_key"@, c.theme.footer_key, a.footer_key)
            &&& set_by_key(e, "color_jump_label_bg"@, c.theme.jump_label_bg, a.jump_label_bg)
            &&& set_by_key(e, "color_jump_label_fg"@, c.theme.jump_label_fg, a.jump_label_fg)
            &&& set_by_key(e, "color_jump_match_fg"@, c.theme.jump_match_fg, a.jump_match_fg)
            &&& set_by_key(e, "color_jump_partial_fg"@, c.theme.jump_partial_fg, a.jump_partial_fg)
            &&& set_by_key(e, "color_search_match_bg"@, c.theme.search_match_bg, a.search_match_bg)
            &&& set_by_key(e, "color_search_current_bg"@, c.theme.search_current_bg, a.search_current_bg)
            &&& set_by_key(e, "color_search_fg"@, c.theme.search_fg, a.search_fg)
        }),
{
}

/// The plain keys each set their own setting and no other: `log_level`
/// takes any string; `labels` a non-empty string, cleaned of repeats;
/// `line_labels` selects the unified scheme exactly for `unified`,
/// `custom`, `true` or `on` (surrounding whitespace ignored); an absent
/// key leaves its setting, and the active profile index is never touched.
pub proof fn law_plain_keys_set_their_own_setting(c: ConfigModel, e: Seq<(Seq<char>, TomlTree)>)
    ensures
        ({
            let a = apply_toml_spec(c, TomlTree::Table(e));
            &&& forall|v: Seq<char>| lookup_str(e, "log_level"@) == Some(v) ==> a.log_level == v
            &&& lookup_str(e, "log_level"@) is None ==> a.log_level == c.log_level
            &&& forall|v: Seq<char>| lookup_str(e, "labels"@) == Some(v) && v.len() > 0 ==> a.labels == dedup(v)
            &&& forall|v: Seq<char>| lookup_str(e, "labels"@) == Some(v) && v.len() == 0 ==> a.labels == c.labels
            &&& lookup_str(e, "labels"@) is None ==> a.labels == c.labels
            &&& forall|v: Seq<char>| lookup_str(e, "line_labels"@) == Some(v) ==> (a.line_labels_unified <==> (trim(v)
                == "unified"@ || trim(v) == "custom"@ || trim(v) == "true"@ || trim(v) == "on"@))
            &&& lookup_str(e, "line_labels"@) is None ==> a.line_labels_unified == c.line_labels_unified
            &&& a.current_profile == c.current_profile
        }),
{
}

} // verus!
