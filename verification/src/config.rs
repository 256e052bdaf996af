//! Configuration: scroll-follow mode, scrollback depth profiles, the
//! word-jump charset, the line-jump scheme and the theme, read from a TOML
//! document with built-in defaults for everything it leaves out.

use vstd::prelude::*;
use crate::render::{Theme, default_theme, hex_color, parse_hex_color};
use crate::style::Color;
use crate::text::{
    lower_all, lower_chars,
    chars_eq, chars_of, decimal, eq_ignore_case, eq_ignore_case_chars, parse_u32, parse_u32_spec,
    push_decimal, string_of, trim, trim_chars,
};
use crate::toml_doc::{
    TomlNode, TomlTree, entry_trees, lemma_entry_trees, lemma_trees, lookup, lookup_str, parse_toml_document, table_get,
    toml_document, trees,
};

verus! {

broadcast use vstd::string::group_string_axioms;

/// Where the popup's cursor and viewport start, relative to the source
/// pane's scroll position.
#[derive(Clone, Copy, Debug, PartialEq, Eq, Structural)]
pub enum ScrollFollow {
    /// Always open at the bottom of the captured text.
    Off,
    /// Anchor on the line at the source viewport's bottom row.
    Offset,
    /// Locate the source's visible text inside the capture.
    Content,
}

impl Default for ScrollFollow {
    fn default() -> (r: ScrollFollow)
        ensures
            r == ScrollFollow::Off,
    {
        ScrollFollow::Off
    }
}

/// The scroll-follow mode a setting names: `off`/`none`/`false`,
/// `offset` or `content`, ignoring ASCII case and surrounding whitespace.
pub open spec fn scroll_follow_of(s: Seq<char>) -> Option<ScrollFollow> {
    let t = lower_all(trim(s));
    if t == "off"@ || t == "none"@ || t == "false"@ {
        Some(ScrollFollow::Off)
    } else if t == "offset"@ {
        Some(ScrollFollow::Offset)
    } else if t == "content"@ {
        Some(ScrollFollow::Content)
    } else {
        None
    }
}

/// `v` holds exactly the characters of `lit`.
fn is_lit(v: &Vec<char>, lit: &str) -> (r: bool)
    ensures
        r == (v@ == lit@),
{
    let l = chars_of(lit);
    chars_eq(v, &l)
}

/// `v` equals `lit` up to ASCII case.
fn is_lit_ignore_case(v: &Vec<char>, lit: &str) -> (r: bool)
    ensures
        r == eq_ignore_case(v@, lit@),
{
    let l = chars_of(lit);
    eq_ignore_case_chars(v, &l)
}

/// Parses a `scroll_follow` setting; unknown values give `None`.
pub fn parse_scroll_follow(s: &str) -> (r: Option<ScrollFollow>)
    ensures
        r == scroll_follow_of(s@),
{
    let chars = chars_of(s);
    let t = lower_chars(&trim_chars(&chars));
    if is_lit(&t, "off") || is_lit(&t, "none") || is_lit(&t, "false") {
        Some(ScrollFollow::Off)
    } else if is_lit(&t, "offset") {
        Some(ScrollFollow::Offset)
    } else if is_lit(&t, "content") {
        Some(ScrollFollow::Content)
    } else {
        None
    }
}

/// Scrollback depth of one profile entry.
#[derive(Clone, Copy, Debug, PartialEq, Eq, Structural)]
pub enum Depth {
    /// Just the visible viewport.
    Viewport,
    /// The last N lines of scrollback.
    Lines(u32),
    /// Everything the terminal keeps.
    Unlimited,
}

/// The footer label of a depth.
pub open spec fn depth_label(d: Depth) -> Seq<char> {
    match d {
        Depth::Viewport => "viewport"@,
        Depth::Lines(n) => decimal(n as nat),
        Depth::Unlimited => "unlimited"@,
    }
}

impl Depth {
    /// Human-readable label for the footer: `viewport`, the line count, or
    /// `unlimited`.
    pub fn label(&self) -> (r: String)
        ensures
            r@ == depth_label(*self),
    {
        match self {
            Depth::Viewport => "viewport".to_string(),
            Depth::Lines(n) => {
                let mut v: Vec<char> = Vec::new();
                push_decimal(*n as u64, &mut v);
                assert(v@ =~= decimal(*n as nat));
                string_of(&v)
            },
            Depth::Unlimited => "unlimited".to_string(),
        }
    }
}

/// The depth a profile entry names: `viewport`, `unlimited` or `all`
/// (ignoring ASCII case), or a positive line count, after trimming
/// whitespace.
pub open spec fn depth_of(s: Seq<char>) -> Option<Depth> {
    let t = trim(s);
    if eq_ignore_case(t, "viewport"@) {
        Some(Depth::Viewport)
    } else if eq_ignore_case(t, "unlimited"@) || eq_ignore_case(t, "all"@) {
        Some(Depth::Unlimited)
    } else {
        match parse_u32_spec(t) {
            Some(n) => if n > 0 { Some(Depth::Lines(n)) } else { None },
            None => None,
        }
    }
}

/// Parses one depth entry.
pub fn parse_depth(s: &str) -> (r: Option<Depth>)
    ensures
        r == depth_of(s@),
{
    let chars = chars_of(s);
    let t = trim_chars(&chars);
    if is_lit_ignore_case(&t, "viewport") {
        return Some(Depth::Viewport);
    }
    if is_lit_ignore_case(&t, "unlimited") || is_lit_ignore_case(&t, "all") {
        return Some(Depth::Unlimited);
    }
    match parse_u32(&t) {
        Some(n) => if n > 0 { Some(Depth::Lines(n)) } else { None },
        None => None,
    }
}

/// A named profile with its depth cycle list.
#[derive(Debug)]
pub struct Profile {
    pub name: String,
    pub depths: Vec<Depth>,
}

impl View for Profile {
    type V = (Seq<char>, Seq<Depth>);

    open spec fn view(&self) -> (Seq<char>, Seq<Depth>) {
        (self.name@, self.depths@)
    }
}

impl Profile {
    /// The profile's name.
    pub fn label(&self) -> (r: String)
        ensures
            r@ == self.name@,
    {
        self.name.clone()
    }
}

/// The built-in depth cycle: 200 lines, 5000 lines, unlimited, viewport.
pub open spec fn default_depth_list() -> Seq<Depth> {
    seq![Depth::Lines(200), Depth::Lines(5000), Depth::Unlimited, Depth::Viewport]
}

/// The built-in depth cycle.
pub fn default_depths() -> (r: Vec<Depth>)
    ensures
        r@ == default_depth_list(),
{
    let mut v: Vec<Depth> = Vec::new();
    v.push(Depth::Lines(200));
    v.push(Depth::Lines(5000));
    v.push(Depth::Unlimited);
    v.push(Depth::Viewport);
    assert(v@ =~= default_depth_list());
    v
}

/// Index of the first profile whose name equals `name` up to ASCII case.
pub open spec fn find_profile_spec(profiles: Seq<(Seq<char>, Seq<Depth>)>, name: Seq<char>) -> Option<usize>
    decreases profiles.len(),
{
    if profiles.len() == 0 {
        None
    } else {
        match find_profile_spec(profiles.drop_last(), name) {
            Some(i) => Some(i),
            None => if eq_ignore_case(profiles.last().0, name) { Some((profiles.len() - 1) as usize) } else { None },
        }
    }
}

/// The views of a sequence of profiles.
pub open spec fn profiles_view(ps: Seq<Profile>) -> Seq<(Seq<char>, Seq<Depth>)> {
    ps.map_values(|p: Profile| p@)
}

/// Finds a profile by name, ignoring ASCII case, and returns its index.
pub fn find_profile(profiles: &[Profile], name: &str) -> (r: Option<usize>)
    ensures
        r == find_profile_spec(profiles_view(profiles@), name@),
{
    let target = chars_of(name);
    let n = profiles.len();
    let mut i: usize = 0;
    while i < n
        invariant
            n == profiles@.len(),
            i <= n,
            target@ == name@,
            find_profile_spec(profiles_view(profiles@).take(i as int), name@) is None,
        decreases n - i,
    {
        let pn = chars_of(profiles[i].name.as_str());
        assert(profiles_view(profiles@).take(i + 1).drop_last() =~= profiles_view(profiles@).take(i as int));
        if eq_ignore_case_chars(&pn, &target) {
            proof { lemma_find_profile_prefix(profiles_view(profiles@), name@, i + 1); }
            return Some(i);
        }
        i = i + 1;
    }
    assert(profiles_view(profiles@).take(n as int) =~= profiles_view(profiles@));
    None
}

/// Once found in a prefix, a profile is found at the same index in the
/// whole list.
proof fn lemma_find_profile_prefix(ps: Seq<(Seq<char>, Seq<Depth>)>, name: Seq<char>, k: int)
    requires
        0 <= k <= ps.len(),
        find_profile_spec(ps.take(k), name) is Some,
    ensures
        find_profile_spec(ps, name) == find_profile_spec(ps.take(k), name),
    decreases ps.len() - k,
{
    if k < ps.len() {
        assert(ps.take(k + 1).drop_last() =~= ps.take(k));
        lemma_find_profile_prefix(ps, name, k + 1);
    } else {
        assert(ps.take(k) =~= ps);
    }
}


/// The default word-jump charset: `a`-`z` then `A`-`Z`.
pub open spec fn default_labels() -> Seq<char> {
    crate::flash::char_run(97, 26) + crate::flash::char_run(65, 26)
}

/// The mathematical value of a [`Config`].
pub struct ConfigModel {
    pub log_level: Seq<char>,
    pub labels: Seq<char>,
    pub line_labels_unified: bool,
    pub theme: Theme,
    pub profiles: Seq<(Seq<char>, Seq<Depth>)>,
    pub current_profile: usize,
    pub scroll_follow: ScrollFollow,
}

/// Full runtime configuration.
#[derive(Debug)]
pub struct Config {
    /// Diagnostic verbosity.
    pub log_level: String,
    /// Word-jump label charset.
    pub labels: Vec<char>,
    /// Line-jump scheme: false = directional (a-z below, A-Z above),
    /// true = unified (split `labels` in half).
    pub line_labels_unified: bool,
    /// Theme (16 color roles).
    pub theme: Theme,
    /// Named profiles.
    pub profiles: Vec<Profile>,
    /// Index of the active profile.
    pub current_profile: usize,
    /// Initial-view scroll-follow mode.
    pub scroll_follow: ScrollFollow,
}

impl View for Config {
    type V = ConfigModel;

    open spec fn view(&self) -> ConfigModel {
        ConfigModel {
            log_level: self.log_level@,
            labels: self.labels@,
            line_labels_unified: self.line_labels_unified,
            theme: self.theme,
            profiles: profiles_view(self.profiles@),
            current_profile: self.current_profile,
            scroll_follow: self.scroll_follow,
        }
    }
}

/// The built-in configuration: log level `info`, the `a-zA-Z` charset,
/// directional line labels, the default theme, one `default` profile with
/// the built-in depth cycle, and scroll-follow off.
pub open spec fn default_config() -> ConfigModel {
    ConfigModel {
        log_level: "info"@,
        labels: default_labels(),
        line_labels_unified: false,
        theme: default_theme(),
        profiles: seq![("default"@, default_depth_list())],
        current_profile: 0,
        scroll_follow: ScrollFollow::Off,
    }
}

/// A configuration every consumer can rely on: a non-empty charset, at
/// least one profile, every profile with at least one depth, and the
/// active profile among them.
pub open spec fn config_wf(c: ConfigModel) -> bool {
    &&& c.labels.len() > 0
    &&& c.profiles.len() > 0
    &&& forall|i: int| 0 <= i < c.profiles.len() ==> (#[trigger] c.profiles[i]).1.len() > 0
    &&& c.current_profile < c.profiles.len()
}

/// A one-profile list holding the built-in `default` profile.
fn default_profile() -> (p: Profile)
    ensures
        p@ == ("default"@, default_depth_list()),
{
    Profile { name: "default".to_string(), depths: default_depths() }
}

impl Default for Config {
    fn default() -> (c: Config)
        ensures
            c@ == default_config(),
    {
        let lower = crate::flash::ascii_run(97, 26);
        let upper = crate::flash::ascii_run(65, 26);
        let mut labels = lower;
        let mut up = upper;
        labels.append(&mut up);
        let mut profiles: Vec<Profile> = Vec::new();
        profiles.push(default_profile());
        let c = Config {
            log_level: "info".to_string(),
            labels,
            line_labels_unified: false,
            theme: Theme::default(),
            profiles,
            current_profile: 0,
            scroll_follow: ScrollFollow::Off,
        };
        assert(c@.profiles =~= default_config().profiles);
        assert(c@.labels =~= default_config().labels);
        c
    }
}

/// The configuration with the profile named `name` (ASCII case ignored)
/// active; when there is none of that name, the `default` profile (the
/// first profile if there is no `default` either).
pub open spec fn select_profile_spec(c: ConfigModel, name: Seq<char>) -> ConfigModel {
    ConfigModel {
        current_profile: match find_profile_spec(c.profiles, name) {
            Some(i) => i,
            None => match find_profile_spec(c.profiles, "default"@) {
                Some(j) => j,
                None => 0,
            },
        },
        ..c
    }
}

/// Makes the profile named `name` active; falls back to the `default`
/// profile and returns false when there is none of that name.
pub fn select_profile(config: &mut Config, name: &str) -> (found: bool)
    ensures
        found == find_profile_spec(old(config)@.profiles, name@) is Some,
        final(config)@ == select_profile_spec(old(config)@, name@),
{
    match find_profile(config.profiles.as_slice(), name) {
        Some(idx) => {
            config.current_profile = idx;
            true
        },
        None => {
            config.current_profile = match find_profile(config.profiles.as_slice(), "default") {
                Some(j) => j,
                None => 0,
            };
            false
        },
    }
}

/// `s` without repeated characters: the first occurrence of each stays,
/// in order.
pub open spec fn dedup(s: Seq<char>) -> Seq<char>
    decreases s.len(),
{
    if s.len() == 0 {
        s
    } else {
        let d = dedup(s.drop_last());
        if d.contains(s.last()) {
            d
        } else {
            d.push(s.last())
        }
    }
}

/// A `line_labels` setting selects the unified scheme.
pub open spec fn unified_setting(v: Seq<char>) -> bool {
    let t = trim(v);
    t == "unified"@ || t == "custom"@ || t == "true"@ || t == "on"@
}

/// A color role after a `color_*` key: the key's hex color when it parses,
/// else the color as it was.
pub open spec fn color_setting(entries: Seq<(Seq<char>, TomlTree)>, key: Seq<char>, old: Color) -> Color {
    match lookup_str(entries, key) {
        Some(v) => match hex_color(v) {
            Some(c) => c,
            None => old,
        },
        None => old,
    }
}

/// The theme after the sixteen `color_*` keys of a table.
pub open spec fn themed(e: Seq<(Seq<char>, TomlTree)>, t: Theme) -> Theme {
    Theme {
        sel_bg: color_setting(e, "color_sel_bg"@, t.sel_bg),
        sel_fg: color_setting(e, "color_sel_fg"@, t.sel_fg),
        cursor_bg: color_setting(e, "color_cursor_bg"@, t.cursor_bg),
        cursor_fg: color_setting(e, "color_cursor_fg"@, t.cursor_fg),
        gutter_cursor: color_setting(e, "color_gutter_mark"@, t.gutter_cursor),
        gutter_dim: color_setting(e, "color_gutter_dim"@, t.gutter_dim),
        sel_indicator: color_setting(e, "color_sel_label"@, t.sel_indicator),
        footer_dim: color_setting(e, "color_footer_dim"@, t.footer_dim),
        footer_key: color_setting(e, "color_footer_key"@, t.footer_key),
        jump_label_bg: color_setting(e, "color_jump_label_bg"@, t.jump_label_bg),
        jump_label_fg: color_setting(e, "color_jump_label_fg"@, t.jump_label_fg),
        jump_match_fg: color_setting(e, "color_jump_match_fg"@, t.jump_match_fg),
        jump_partial_fg: color_setting(e, "color_jump_partial_fg"@, t.jump_partial_fg),
        search_match_bg: color_setting(e, "color_search_match_bg"@, t.search_match_bg),
        search_current_bg: color_setting(e, "color_search_current_bg"@, t.search_current_bg),
        search_fg: color_setting(e, "color_search_fg"@, t.search_fg),
    }
}

/// The depths named by the string items of an array; other items and
/// unparsable strings are skipped.
pub open spec fn depths_from(items: Seq<TomlTree>) -> Seq<Depth>
    decreases items.len(),
{
    if items.len() == 0 {
        seq![]
    } else {
        let prev = depths_from(items.drop_last());
        match items.last() {
            TomlTree::Str(s) => match depth_of(s) {
                Some(d) => prev.push(d),
                None => prev,
            },
            _ => prev,
        }
    }
}

/// The profile a `[profiles.<name>]` entry defines: a table whose `depths`
/// array names at least one depth.
pub open spec fn profile_from(name: Seq<char>, val: TomlTree) -> Option<(Seq<char>, Seq<Depth>)> {
    match val {
        TomlTree::Table(e) => match lookup(e, "depths"@) {
            Some(TomlTree::Array(items)) => {
                let ds = depths_from(items);
                if ds.len() > 0 { Some((name, ds)) } else { None }
            },
            _ => None,
        },
        _ => None,
    }
}

/// The profiles of the `profiles` table, in table order, skipping entries
/// that define none.
pub open spec fn profiles_from(ps: Seq<(Seq<char>, TomlTree)>) -> Seq<(Seq<char>, Seq<Depth>)>
    decreases ps.len(),
{
    if ps.len() == 0 {
        seq![]
    } else {
        let prev = profiles_from(ps.drop_last());
        match profile_from(ps.last().0, ps.last().1) {
            Some(p) => prev.push(p),
            None => prev,
        }
    }
}

/// `ps`, with the built-in `default` profile appended when none is named
/// `default` (ASCII case ignored).
pub open spec fn with_default_profile(ps: Seq<(Seq<char>, Seq<Depth>)>) -> Seq<(Seq<char>, Seq<Depth>)> {
    if find_profile_spec(ps, "default"@) is None {
        ps.push(("default"@, default_depth_list()))
    } else {
        ps
    }
}

/// The configuration after a TOML document's settings: each recognized
/// key with a usable value overrides the current setting; the rest stay.
pub open spec fn apply_toml_spec(c: ConfigModel, root: TomlTree) -> ConfigModel {
    match root {
        TomlTree::Table(e) => ConfigModel {
            log_level: match lookup_str(e, "log_level"@) {
                Some(v) => v,
                None => c.log_level,
            },
            labels: match lookup_str(e, "labels"@) {
                Some(v) => if v.len() > 0 { dedup(v) } else { c.labels },
                None => c.labels,
            },
            line_labels_unified: match lookup_str(e, "line_labels"@) {
                Some(v) => unified_setting(v),
                None => c.line_labels_unified,
            },
            theme: themed(e, c.theme),
            profiles: match lookup(e, "profiles"@) {
                Some(TomlTree::Table(ps)) => {
                    let parsed = profiles_from(ps);
                    if parsed.len() > 0 { with_default_profile(parsed) } else { c.profiles }
                },
                _ => c.profiles,
            },
            current_profile: c.current_profile,
            scroll_follow: match lookup_str(e, "scroll_follow"@) {
                Some(v) => match scroll_follow_of(v) {
                    Some(m) => m,
                    None => c.scroll_follow,
                },
                None => c.scroll_follow,
            },
        },
        _ => c,
    }
}

/// The `scroll_follow` value of a document that names no mode.
pub open spec fn rejected_scroll_follow(root: TomlTree) -> Option<Seq<char>> {
    match root {
        TomlTree::Table(e) => match lookup_str(e, "scroll_follow"@) {
            Some(v) => if scroll_follow_of(v) is None { Some(v) } else { None },
            None => None,
        },
        _ => None,
    }
}


/// The string at `key` in a table of nodes.
fn lookup_string<'a>(entries: &'a Vec<(String, TomlNode)>, key: &str) -> (r: Option<&'a String>)
    ensures
        r matches Some(v) ==> lookup_str(entry_trees(entries@), key@) == Some(v@),
        r is None ==> lookup_str(entry_trees(entries@), key@) is None,
{
    match table_get(entries, key) {
        Some(TomlNode::Str(v)) => Some(v),
        _ => None,
    }
}

/// `s` without repeated characters, first occurrences kept in order.
fn dedup_chars(s: &Vec<char>) -> (r: Vec<char>)
    ensures
        r@ == dedup(s@),
{
    let mut r: Vec<char> = Vec::new();
    let n = s.len();
    let mut i: usize = 0;
    while i < n
        invariant
            n == s@.len(),
            i <= n,
            r@ == dedup(s@.take(i as int)),
        decreases n - i,
    {
        assert(s@.take(i + 1).drop_last() =~= s@.take(i as int));
        assert(s@.take(i + 1).last() == s@[i as int]);
        if !crate::flash::contains_char(r.as_slice(), s[i]) {
            r.push(s[i]);
        }
        i = i + 1;
    }
    assert(s@.take(n as int) =~= s@);
    r
}

/// A color role after the `color_*` key `key`.
fn color_or(entries: &Vec<(String, TomlNode)>, key: &str, old: Color) -> (c: Color)
    ensures
        c == color_setting(entry_trees(entries@), key@, old),
{
    match lookup_string(entries, key) {
        Some(v) => match parse_hex_color(v.as_str()) {
            Some(c) => c,
            None => old,
        },
        None => old,
    }
}

/// The depths named by the string items of an array.
fn depths_of_items(items: &Vec<TomlNode>) -> (ds: Vec<Depth>)
    ensures
        ds@ == depths_from(trees(items@)),
{
    proof { lemma_trees(items@); }
    let ghost ts = trees(items@);
    let mut ds: Vec<Depth> = Vec::new();
    let n = items.len();
    let mut i: usize = 0;
    while i < n
        invariant
            n == items@.len(),
            n == ts.len(),
            i <= n,
            ts == trees(items@),
            forall|j: int| 0 <= j < items@.len() ==> #[trigger] ts[j] == items@[j].tree(),
            ds@ == depths_from(ts.take(i as int)),
        decreases n - i,
    {
        assert(ts.take(i + 1).drop_last() =~= ts.take(i as int));
        assert(ts.take(i + 1).last() == items@[i as int].tree());
        match &items[i] {
            TomlNode::Str(v) => match parse_depth(v.as_str()) {
                Some(d) => ds.push(d),
                None => {},
            },
            _ => {},
        }
        i = i + 1;
    }
    assert(ts.take(n as int) =~= ts);
    ds
}

/// The profile a `[profiles.<name>]` entry defines, if any.
fn parse_profile(name: &String, val: &TomlNode) -> (r: Option<Profile>)
    ensures
        r matches Some(p) ==> profile_from(name@, val.tree()) == Some(p@),
        r is None ==> profile_from(name@, val.tree()) is None,
{
    match val {
        TomlNode::Table(e) => match table_get(e, "depths") {
            Some(TomlNode::Array(items)) => {
                let ds = depths_of_items(items);
                if ds.len() > 0 {
                    Some(Profile { name: name.clone(), depths: ds })
                } else {
                    None
                }
            },
            _ => None,
        },
        _ => None,
    }
}

/// The profiles of a `profiles` table.
fn parse_profiles(ps: &Vec<(String, TomlNode)>) -> (r: Vec<Profile>)
    ensures
        profiles_view(r@) == profiles_from(entry_trees(ps@)),
{
    proof { lemma_entry_trees(ps@); }
    let ghost es = entry_trees(ps@);
    let mut r: Vec<Profile> = Vec::new();
    let n = ps.len();
    let mut i: usize = 0;
    while i < n
        invariant
            n == ps@.len(),
            n == es.len(),
            i <= n,
            es == entry_trees(ps@),
            forall|j: int| 0 <= j < ps@.len() ==> #[trigger] es[j] == (ps@[j].0@, ps@[j].1.tree()),
            profiles_view(r@) == profiles_from(es.take(i as int)),
        decreases n - i,
    {
        assert(es.take(i + 1).drop_last() =~= es.take(i as int));
        assert(es.take(i + 1).last() == es[i as int]);
        let ghost before = r@;
        match parse_profile(&ps[i].0, &ps[i].1) {
            Some(p) => {
                r.push(p);
                assert(profiles_view(r@) =~= profiles_view(before).push(p@));
            },
            None => {},
        }
        i = i + 1;
    }
    assert(es.take(n as int) =~= es);
    r
}

/// Applies a parsed TOML document onto the configuration, overriding the
/// settings it names with usable values. Returns the `scroll_follow` value
/// when it names no mode (the setting then stays as it was).
pub fn apply_toml(config: &mut Config, root: &TomlNode) -> (rejected: Option<String>)
    ensures
        final(config)@ == apply_toml_spec(old(config)@, root.tree()),
        rejected matches Some(v) ==> rejected_scroll_follow(root.tree()) == Some(v@),
        rejected is None ==> rejected_scroll_follow(root.tree()) is None,
{
    let entries = match root {
        TomlNode::Table(e) => e,
        _ => {
            return None;
        },
    };
    let ghost e = entry_trees(entries@);
    assert(root.tree() == TomlTree::Table(e));
    let ghost c0 = config@;
    match lookup_string(entries, "log_level") {
        Some(v) => {
            config.log_level = v.clone();
        },
        None => {},
    }
    match lookup_string(entries, "labels") {
        Some(v) => {
            let chars = chars_of(v.as_str());
            if chars.len() > 0 {
                config.labels = dedup_chars(&chars);
            }
        },
        None => {},
    }
    match lookup_string(entries, "line_labels") {
        Some(v) => {
            let t = trim_chars(&chars_of(v.as_str()));
            config.line_labels_unified = is_lit(&t, "unified") || is_lit(&t, "custom") || is_lit(&t, "true") || is_lit(&t, "on");
        },
        None => {},
    }
    let mut rejected: Option<String> = None;
    match lookup_string(entries, "scroll_follow") {
        Some(v) => match parse_scroll_follow(v.as_str()) {
            Some(m) => {
                config.scroll_follow = m;
            },
            None => {
                rejected = Some(v.clone());
            },
        },
        None => {},
    }
    let t = config.theme;
    config.theme = Theme {
        sel_bg: color_or(entries, "color_sel_bg", t.sel_bg),
        sel_fg: color_or(entries, "color_sel_fg", t.sel_fg),
        cursor_bg: color_or(entries, "color_cursor_bg", t.cursor_bg),
        cursor_fg: color_or(entries, "color_cursor_fg", t.cursor_fg),
        gutter_cursor: color_or(entries, "color_gutter_mark", t.gutter_cursor),
        gutter_dim: color_or(entries, "color_gutter_dim", t.gutter_dim),
        sel_indicator: color_or(entries, "color_sel_label", t.sel_indicator),
        footer_dim: color_or(entries, "color_footer_dim", t.footer_dim),
        footer_key: color_or(entries, "color_footer_key", t.footer_key),
        jump_label_bg: color_or(entries, "color_jump_label_bg", t.jump_label_bg),
        jump_label_fg: color_or(entries, "color_jump_label_fg", t.jump_label_fg),
        jump_match_fg: color_or(entries, "color_jump_match_fg", t.jump_match_fg),
        jump_partial_fg: color_or(entries, "color_jump_partial_fg", t.jump_partial_fg),
        search_match_bg: color_or(entries, "color_search_match_bg", t.search_match_bg),
        search_current_bg: color_or(entries, "color_search_current_bg", t.search_current_bg),
        search_fg: color_or(entries, "color_search_fg", t.search_fg),
    };
    match table_get(entries, "profiles") {
        Some(TomlNode::Table(ps)) => {
            let mut parsed = parse_profiles(ps);
            if parsed.len() > 0 {
                if find_profile(parsed.as_slice(), "default").is_none() {
                    let ghost before = parsed@;
                    parsed.push(default_profile());
                    assert(profiles_view(parsed@) =~= profiles_view(before).push(("default"@, default_depth_list())));
                }
                config.profiles = parsed;
            }
        },
        _ => {},
    }
    assert(config@.theme == themed(e, c0.theme));
    rejected
}


/// What loading produced: the configuration, and the conditions worth
/// a warning.
pub struct LoadOutcome {
    pub config: Config,
    /// The TOML parser's message, when the document did not parse.
    pub parse_error: Option<String>,
    /// A `scroll_follow` value that names no mode.
    pub rejected_scroll_follow: Option<String>,
    /// Whether the requested profile exists.
    pub profile_found: bool,
}

/// The configuration loaded from an optional document, with the profile
/// named `profile` active: the defaults, overridden by the document when
/// it parses.
pub open spec fn load_spec(text: Option<Seq<char>>, profile: Seq<char>) -> ConfigModel {
    let applied = match text {
        Some(t) => match toml_document(t) {
            Ok(tree) => apply_toml_spec(default_config(), tree),
            Err(_) => default_config(),
        },
        None => default_config(),
    };
    select_profile_spec(applied, profile)
}

/// The profile name a launch asks for: the given one, or `default`.
pub open spec fn requested_profile(profile: Option<Seq<char>>) -> Seq<char> {
    match profile {
        Some(p) => p,
        None => "default"@,
    }
}

/// Loads the configuration from the text of `config.toml` (`None` when
/// there is no readable file) and selects the profile named `profile`
/// (`None`: `default`). A document that does not parse leaves the
/// defaults.
pub fn load(text: Option<&str>, profile: Option<&str>) -> (r: LoadOutcome)
    ensures
        r.config@ == load_spec(
            match text { Some(t) => Some(t@), None => None },
            requested_profile(match profile { Some(p) => Some(p@), None => None }),
        ),
        r.profile_found == find_profile_spec(
            load_spec(match text { Some(t) => Some(t@), None => None }, "default"@).profiles,
            requested_profile(match profile { Some(p) => Some(p@), None => None }),
        ) is Some,
        text matches Some(t) ==> match r.parse_error {
            Some(e) => toml_document(t@) == Err::<TomlTree, Seq<char>>(e@),
            None => toml_document(t@) is Ok,
        },
        text is None ==> r.parse_error is None,
        r.rejected_scroll_follow matches Some(v) ==> (text matches Some(t) && toml_document(t@) matches Ok(tree)
            && rejected_scroll_follow(tree) == Some(v@)),
        r.rejected_scroll_follow is None ==> !(text matches Some(t) && toml_document(t@) matches Ok(tree)
            && rejected_scroll_follow(tree) is Some),
{
    let mut config = Config::default();
    let mut parse_error: Option<String> = None;
    let mut rejected: Option<String> = None;
    match text {
        Some(t) => match parse_toml_document(t) {
            Ok(doc) => {
                rejected = apply_toml(&mut config, &doc);
            },
            Err(e) => {
                parse_error = Some(e);
            },
        },
        None => {},
    }
    let found = match profile {
        Some(p) => select_profile(&mut config, p),
        None => select_profile(&mut config, "default"),
    };
    LoadOutcome { config, parse_error, rejected_scroll_follow: rejected, profile_found: found }
}

} // verus!
