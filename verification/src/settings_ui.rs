//! The settings of a project: the sections they are shown in, the search over
//! all of them, and the edits that follow through.

use crate::lists::{lemma_filter_holds, lemma_filter_none, lemma_filter_step, lemma_first_kept};
use crate::paths::{file_stem, stem_in};
use crate::script_meta::opt_text;
use crate::text::{
    ascii_lower, chars_of, contains_text, copy_of, decimal, decimal_text, joined,
    lemma_trim_is_blind_to_case, lowered, occurs, occurs_at, same_text, text_of, texts, trim, trimmed, trimmed_text,
};
use vstd::prelude::*;

verus! {

// ---- sections --------------------------------------------------------------

/// One topic of the settings.
#[derive(Clone, Copy, Debug, PartialEq, Eq, Structural)]
pub enum SettingsSection {
    Game,
    Rendering,
    Layers,
    Input,
    Access,
}

impl Default for SettingsSection {
    fn default() -> (out: Self)
        ensures
            out == SettingsSection::Game,
    {
        SettingsSection::Game
    }
}

/// The sign of a section.
#[derive(Clone, Copy, Debug, PartialEq, Eq, Structural)]
pub enum Icon {
    Play,
    Shaders,
    MapSheet,
    Keyboard,
    Glyph(char),
}

/// The sections in the order in which they are shown.
pub open spec fn all_sections() -> Seq<SettingsSection> {
    seq![
        SettingsSection::Game,
        SettingsSection::Rendering,
        SettingsSection::Layers,
        SettingsSection::Input,
        SettingsSection::Access,
    ]
}

/// The title of a section.
pub open spec fn title_of(s: SettingsSection) -> Seq<char> {
    match s {
        SettingsSection::Game => "Game"@,
        SettingsSection::Rendering => "Rendering"@,
        SettingsSection::Layers => "Layers"@,
        SettingsSection::Input => "Input"@,
        SettingsSection::Access => "Accessibility"@,
    }
}

/// What a section is for.
pub open spec fn blurb_of(s: SettingsSection) -> Seq<char> {
    match s {
        SettingsSection::Game => "What a build ships as."@,
        SettingsSection::Rendering => "Applies to every scene in the project."@,
        SettingsSection::Layers => "Collision and query groups."@,
        SettingsSection::Input =>
            "Named actions your scripts read, and the keys, mouse buttons and gamepad controls that trigger them."@,
        SettingsSection::Access =>
            "What a player can change. Try your game with these on — a game's own options menu drives the same values from Lua."@,
    }
}

/// The words by which a section is found, beyond those that it shows.
pub open spec fn keywords_of(s: SettingsSection) -> Seq<char> {
    match s {
        SettingsSection::Game => "title name entry scene boot build export ships"@,
        SettingsSection::Rendering =>
            "retro pixel resolution matter sdf post bloom vignette vec3 vector script fast exact"@,
        SettingsSection::Layers => "collision matrix physics raycast group mask"@,
        SettingsSection::Input =>
            "action axis binding key keyboard mouse gamepad pad controller jump move look bind rebind deadzone socd motion buffer player"@,
        SettingsSection::Access =>
            "accessibility a11y colourblind colorblind deuteranopia protanopia tritanopia daltonize text scale font size reduced motion vestibular captions subtitles"@,
    }
}

impl SettingsSection {
    /// The sections in the order in which they are shown.
    pub fn all() -> (out: Vec<SettingsSection>)
        ensures
            out@ == all_sections(),
    {
        let mut out: Vec<SettingsSection> = Vec::new();
        out.push(SettingsSection::Game);
        out.push(SettingsSection::Rendering);
        out.push(SettingsSection::Layers);
        out.push(SettingsSection::Input);
        out.push(SettingsSection::Access);
        assert(out@ =~= all_sections());
        out
    }

    /// The title of the section.
    pub fn title(self) -> (out: &'static str)
        ensures
            out@ == title_of(self),
    {
        match self {
            SettingsSection::Game => "Game",
            SettingsSection::Rendering => "Rendering",
            SettingsSection::Layers => "Layers",
            SettingsSection::Input => "Input",
            SettingsSection::Access => "Accessibility",
        }
    }

    /// The sign of the section.
    pub fn icon(self) -> (out: Icon)
        ensures
            out == match self {
                SettingsSection::Game => Icon::Play,
                SettingsSection::Rendering => Icon::Shaders,
                SettingsSection::Layers => Icon::MapSheet,
                SettingsSection::Input => Icon::Keyboard,
                SettingsSection::Access => Icon::Glyph('♿'),
            },
    {
        match self {
            SettingsSection::Game => Icon::Play,
            SettingsSection::Rendering => Icon::Shaders,
            SettingsSection::Layers => Icon::MapSheet,
            SettingsSection::Input => Icon::Keyboard,
            SettingsSection::Access => Icon::Glyph('♿'),
        }
    }

    /// What the section is for.
    pub fn blurb(self) -> (out: &'static str)
        ensures
            out@ == blurb_of(self),
    {
        match self {
            SettingsSection::Game => "What a build ships as.",
            SettingsSection::Rendering => "Applies to every scene in the project.",
            SettingsSection::Layers => "Collision and query groups.",
            SettingsSection::Input =>
                "Named actions your scripts read, and the keys, mouse buttons and gamepad controls that trigger them.",
            SettingsSection::Access =>
                "What a player can change. Try your game with these on — a game's own options menu drives the same values from Lua.",
        }
    }

    /// The words by which the section is found, beyond those that it shows.
    pub fn keywords(self) -> (out: &'static str)
        ensures
            out@ == keywords_of(self),
    {
        match self {
            SettingsSection::Game => "title name entry scene boot build export ships",
            SettingsSection::Rendering =>
                "retro pixel resolution matter sdf post bloom vignette vec3 vector script fast exact",
            SettingsSection::Layers => "collision matrix physics raycast group mask",
            SettingsSection::Input =>
                "action axis binding key keyboard mouse gamepad pad controller jump move look bind rebind deadzone socd motion buffer player",
            SettingsSection::Access =>
                "accessibility a11y colourblind colorblind deuteranopia protanopia tritanopia daltonize text scale font size reduced motion vestibular captions subtitles",
        }
    }
}

// ---- searching -------------------------------------------------------------

/// Does `query` occur in `haystack`, whatever the case of the letters of ASCII?
/// A blank query occurs in everything.
pub open spec fn is_match(query: Seq<char>, haystack: Seq<char>) -> bool {
    let q = ascii_lower(trim(query));
    q.len() == 0 || occurs(ascii_lower(haystack), q)
}

/// Does `query` occur in `haystack`, whatever the case of the letters?
pub fn matches(query: &str, haystack: &str) -> (out: bool)
    ensures
        out == is_match(query@, haystack@),
{
    let typed: Vec<char> = chars_of(query);
    let q: Vec<char> = lowered(trimmed(typed.as_slice()));
    if q.len() == 0 {
        return true;
    }
    let hay: Vec<char> = lowered(chars_of(haystack).as_slice());
    contains_text(hay.as_slice(), q.as_slice())
}

/// Is the section found by `query`?
pub open spec fn is_hit(query: Seq<char>, s: SettingsSection) -> bool {
    is_match(query, title_of(s)) || is_match(query, blurb_of(s)) || is_match(query, keywords_of(s))
}

/// The sections that are found by `query`, in the order in which they are shown.
pub fn search_hits(query: &str) -> (out: Vec<SettingsSection>)
    ensures
        out@ == all_sections().filter(|s: SettingsSection| is_hit(query@, s)),
{
    let all: Vec<SettingsSection> = SettingsSection::all();
    let ghost keep = |s: SettingsSection| is_hit(query@, s);
    let mut out: Vec<SettingsSection> = Vec::new();
    let mut i: usize = 0;
    proof {
        lemma_filter_none(all@, keep);
    }
    while i < all.len()
        invariant
            i <= all.len(),
            keep == (|s: SettingsSection| is_hit(query@, s)),
            out@ == all@.take(i as int).filter(keep),
        decreases all.len() - i,
    {
        proof {
            lemma_filter_step(all@, i as int, keep);
        }
        let s: SettingsSection = all[i];
        if matches(query, s.title()) || matches(query, s.blurb()) || matches(query, s.keywords()) {
            out.push(s);
        }
        i += 1;
    }
    proof {
        lemma_filter_none(all@, keep);
    }
    out
}

/// The section that is shown while `query` is being searched for: the one that
/// is open, where it is found or nothing is searched for; else the first that is
/// found; none where none is found.
pub open spec fn shown_section(current: SettingsSection, query: Seq<char>) -> Option<
    SettingsSection,
> {
    let hits = all_sections().filter(|s: SettingsSection| is_hit(query, s));
    if trim(query).len() == 0 {
        Some(current)
    } else if hits.len() == 0 {
        None
    } else if hits.contains(current) {
        Some(current)
    } else {
        Some(hits[0])
    }
}

/// The section that is shown while `query` is being searched for.
pub fn section_shown(current: SettingsSection, query: &str) -> (out: Option<SettingsSection>)
    ensures
        out == shown_section(current, query@),
{
    let typed: Vec<char> = chars_of(query);
    if trimmed(typed.as_slice()).len() == 0 {
        return Some(current);
    }
    let hits: Vec<SettingsSection> = search_hits(query);
    if hits.len() == 0 {
        return None;
    }
    let mut i: usize = 0;
    while i < hits.len()
        invariant
            i <= hits.len(),
            trim(query@).len() > 0,
            hits@ == all_sections().filter(|s: SettingsSection| is_hit(query@, s)),
            forall|j: int| 0 <= j < i ==> hits@[j] != current,
        decreases hits.len() - i,
    {
        if hits[i] == current {
            assert(hits@[i as int] == current);
            return Some(current);
        }
        i += 1;
    }
    Some(hits[0])
}

/// What is said where nothing is found.
pub fn no_match_text(query: &str) -> (out: String)
    ensures
        out@ == "no settings match “"@ + trim(query@) + "”"@,
{
    joined(joined("no settings match “", trimmed_text(query).as_str()).as_str(), "”")
}

/// Clears the search, where it holds anything, once its button is clicked or
/// Escape is pressed in its field. Elsewhere Escape belongs to others.
pub fn clear_search(search: &mut String, button: bool, focused: bool, escape: bool)
    ensures
        final(search)@ == if button || (focused && escape) {
            Seq::empty()
        } else {
            old(search)@
        },
{
    if button || (focused && escape) {
        *search = copy_of("");
        proof {
            reveal_strlit("");
        }
        assert(search@ =~= Seq::empty());
    }
}

/// A section in the list of sections.
#[derive(Clone, Copy, Debug, PartialEq, Eq, Structural)]
pub struct NavEntry {
    pub section: SettingsSection,
    /// Is it the one that is shown?
    pub selected: bool,
    /// Is it written faintly, because nothing in it was found?
    pub weak: bool,
}

/// A section in the list of sections, while `query` is searched for.
pub open spec fn nav_entry(
    s: SettingsSection,
    selected: SettingsSection,
    query: Seq<char>,
) -> NavEntry {
    NavEntry { section: s, selected: s == selected, weak: !is_hit(query, s) }
}

/// The list of sections: all of them, whatever is searched for.
pub fn navigation(selected: SettingsSection, query: &str) -> (out: Vec<NavEntry>)
    ensures
        out@ == all_sections().map_values(
            |s: SettingsSection| nav_entry(s, selected, query@),
        ),
{
    let all: Vec<SettingsSection> = SettingsSection::all();
    let mut out: Vec<NavEntry> = Vec::new();
    let mut i: usize = 0;
    while i < all.len()
        invariant
            i <= all.len(),
            all@ == all_sections(),
            out@ == all@.take(i as int).map_values(
                |s: SettingsSection| nav_entry(s, selected, query@),
            ),
        decreases all.len() - i,
    {
        let s: SettingsSection = all[i];
        let found: bool = matches(query, s.title()) || matches(query, s.blurb()) || matches(
            query,
            s.keywords(),
        );
        let ghost was = out@;
        out.push(NavEntry { section: s, selected: s == selected, weak: !found });
        assert(out@ =~= all@.take(i + 1).map_values(
            |s: SettingsSection| nav_entry(s, selected, query@),
        ));
        i += 1;
    }
    assert(all@.take(i as int) =~= all@);
    out
}

/// The files that a section is kept in.
pub fn kept_in(section: SettingsSection) -> (out: Vec<&'static str>)
    ensures
        out@ == if section == SettingsSection::Input {
            seq!["project.ron", "input.ron"]
        } else {
            seq!["project.ron"]
        },
{
    let mut out: Vec<&'static str> = Vec::new();
    out.push("project.ron");
    if section == SettingsSection::Input {
        out.push("input.ron");
        assert(out@ =~= seq!["project.ron", "input.ron"]);
    } else {
        assert(out@ =~= seq!["project.ron"]);
    }
    out
}

/// A blank search finds every section, and it leaves the open one open.
pub proof fn law_a_blank_search_finds_everything(query: Seq<char>, s: SettingsSection)
    requires
        trim(query).len() == 0,
    ensures
        is_hit(query, s),
        shown_section(s, query) == Some(s),
{
    assert(ascii_lower(trim(query)).len() == 0);
}

/// What is shown while something is searched for has been found.
pub proof fn law_what_is_shown_was_found(current: SettingsSection, query: Seq<char>)
    requires
        trim(query).len() > 0,
        shown_section(current, query) is Some,
    ensures
        is_hit(query, shown_section(current, query)->Some_0),
{
    let keep = |s: SettingsSection| is_hit(query, s);
    let hits = all_sections().filter(keep);
    broadcast use vstd::seq_lib::group_filter_ensures;

    if hits.contains(current) {
        let k = choose|k: int| 0 <= k < hits.len() && hits[k] == current;
        assert(keep(hits[k]));
    } else {
        assert(keep(hits[0]));
    }
}

/// A search is blind to the case of letters: it finds the same with its query or
/// its haystack in small letters.
pub proof fn law_a_search_is_blind_to_case(query: Seq<char>, haystack: Seq<char>)
    ensures
        is_match(query, ascii_lower(haystack)) == is_match(query, haystack),
        is_match(ascii_lower(query), haystack) == is_match(query, haystack),
{
    assert(ascii_lower(ascii_lower(haystack)) =~= ascii_lower(haystack));
    lemma_trim_is_blind_to_case(query);
    assert(ascii_lower(ascii_lower(trim(query))) =~= ascii_lower(trim(query)));
}

/// Every section is shown once, and no two have the same title.
pub proof fn law_every_section_is_shown_once(a: SettingsSection, b: SettingsSection)
    ensures
        all_sections().contains(a),
        all_sections().no_duplicates(),
        title_of(a) == title_of(b) ==> a == b,
{
    let all = all_sections();
    assert(all[0] is Game && all[1] is Rendering && all[2] is Layers);
    assert(all[3] is Input && all[4] is Access);
    reveal_strlit("Game");
    reveal_strlit("Rendering");
    reveal_strlit("Layers");
    reveal_strlit("Input");
    reveal_strlit("Accessibility");
    assert("Game"@[0] == 'G' && "Rendering"@[0] == 'R' && "Layers"@[0] == 'L');
    assert("Input"@[0] == 'I' && "Accessibility"@[0] == 'A');
}

/// What is found in a text is found in every longer one that holds it, and every text is
/// found by itself.
pub proof fn law_a_longer_text_holds_what_a_shorter_does(
    query: Seq<char>,
    a: Seq<char>,
    h: Seq<char>,
    b: Seq<char>,
)
    ensures
        is_match(query, h) ==> is_match(query, a + h + b),
        is_match(query, trim(query)),
        trim(query).len() > 0 ==> !is_match(query, Seq::empty()),
{
    let q = ascii_lower(trim(query));
    let low = ascii_lower(h);
    let long = ascii_lower(a + h + b);
    assert(q.len() == trim(query).len());
    if q.len() > 0 && is_match(query, h) {
        let i = choose|i: int| occurs_at(low, q, i);
        assert(long.subrange(a.len() + i, a.len() + i + q.len()) =~= low.subrange(
            i,
            i + q.len(),
        ));
        assert(occurs_at(long, q, a.len() + i));
    }
    assert(q.subrange(0, q.len() as int) =~= q);
    assert(occurs_at(ascii_lower(trim(query)), q, 0));
    if q.len() > 0 && is_match(query, Seq::empty()) {
        let i = choose|i: int| occurs_at(ascii_lower(Seq::empty()), q, i);
        assert(ascii_lower(Seq::<char>::empty()).len() == 0);
    }
}

/// The section that is open stays as long as it is found. Else the first that is found is
/// shown, and none exactly where none is found.
pub proof fn law_the_first_that_is_found_is_shown(
    current: SettingsSection,
    query: Seq<char>,
    i: int,
    j: int,
)
    requires
        trim(query).len() > 0,
        0 <= j < i < all_sections().len(),
    ensures
        is_hit(query, current) ==> shown_section(current, query) == Some(current),
        shown_section(current, query) is None <==> forall|s: SettingsSection| !is_hit(query, s),
        !is_hit(query, current) && shown_section(current, query) == Some(all_sections()[i])
            ==> !is_hit(query, all_sections()[j]),
{
    let hit = |s: SettingsSection| is_hit(query, s);
    let all = all_sections();
    let hits = all.filter(hit);
    assert forall|s: SettingsSection| #[trigger] hits.contains(s) <==> is_hit(query, s) by {
        law_every_section_is_shown_once(s, s);
        lemma_filter_holds(all, hit, s);
    }
    assert(hits.contains(current) <==> is_hit(query, current));
    if hits.len() > 0 {
        assert(hits.contains(hits[0]));
        assert(is_hit(query, hits[0]));
        lemma_first_kept(all, hit);
        let k = choose|k: int|
            0 <= k < all.len() && #[trigger] all[k] == hits[0] && forall|m: int|
                0 <= m < k ==> !hit(#[trigger] all[m]);
        law_every_section_is_shown_once(current, current);
        if !is_hit(query, current) && shown_section(current, query) == Some(all[i]) {
            assert(all[k] == all[i]);
            assert(k == i);
            assert(!hit(all[j]));
        }
    } else {
        assert forall|s: SettingsSection| !is_hit(query, s) by {
            assert(!hits.contains(s));
        }
    }
}

/// A section of the list is the one that is shown or not, and faint or not, by itself.
pub proof fn law_a_section_is_faint_where_nothing_is_found(
    s: SettingsSection,
    selected: SettingsSection,
    query: Seq<char>,
)
    ensures
        nav_entry(s, selected, query).section == s,
        nav_entry(s, selected, query).selected <==> s == selected,
        nav_entry(s, selected, query).weak <==> !(is_match(query, title_of(s)) || is_match(
            query,
            blurb_of(s),
        ) || is_match(query, keywords_of(s))),
{
}

// ---- the game --------------------------------------------------------------

/// The title that a typed title sets: none where it is blank.
pub fn title_from(typed: &str) -> (out: Option<String>)
    ensures
        opt_text(out) == if trim(typed@).len() > 0 {
            Some(typed@)
        } else {
            None
        },
{
    let s: Vec<char> = chars_of(typed);
    if trimmed(s.as_slice()).len() > 0 {
        Some(text_of(s.as_slice()))
    } else {
        None
    }
}

/// The scene into which a build boots, where none is set.
pub open spec fn entry_scene_of(set: Option<Seq<char>>) -> Seq<char> {
    match set {
        Some(s) => s,
        None => "scenes/first.ron"@,
    }
}

/// The scene into which a build boots.
pub fn entry_scene(set: &Option<String>) -> (out: String)
    ensures
        out@ == entry_scene_of(opt_text(*set)),
{
    match set {
        Some(s) => copy_of(s.as_str()),
        None => copy_of("scenes/first.ron"),
    }
}

/// The name under which a scene is listed.
pub fn scene_label(path: &str) -> (out: String)
    ensures
        out@ == match stem_in(path@) {
            Some(stem) => stem,
            None => path@,
        },
{
    match file_stem(path) {
        Some(stem) => stem,
        None => copy_of(path),
    }
}

/// The number that a typed store number sets: none where it is 0.
pub fn steam_id_from(typed: u32) -> (out: Option<u32>)
    ensures
        out == if typed != 0 {
            Some(typed)
        } else {
            None
        },
{
    if typed != 0 {
        Some(typed)
    } else {
        None
    }
}

// ---- rendering -------------------------------------------------------------

/// How finished frames reach the display.
#[derive(Clone, Copy, Debug, PartialEq, Eq, Structural)]
pub enum Vsync {
    On,
    Adaptive,
    Off,
}

/// How much of its surroundings a probe keeps.
#[derive(Clone, Copy, Debug, PartialEq, Eq, Structural)]
pub enum ProbeDetail {
    Low,
    Medium,
    High,
    Ultra,
}

/// What a vector is made of in the scripts of a project.
#[derive(Clone, Copy, Debug, PartialEq, Eq, Structural)]
pub enum ScriptVec3 {
    Exact,
    Fast,
}

impl Vsync {
    /// The name under which it is chosen.
    pub fn label(self) -> (out: &'static str)
        ensures
            out@ == match self {
                Vsync::On => "smooth (vsync)"@,
                Vsync::Adaptive => "uncapped, no tearing"@,
                Vsync::Off => "uncapped"@,
            },
    {
        match self {
            Vsync::On => "smooth (vsync)",
            Vsync::Adaptive => "uncapped, no tearing",
            Vsync::Off => "uncapped",
        }
    }
}

impl ProbeDetail {
    /// The name under which it is chosen.
    pub fn label(self) -> (out: &'static str)
        ensures
            out@ == match self {
                ProbeDetail::Low => "low"@,
                ProbeDetail::Medium => "medium"@,
                ProbeDetail::High => "high"@,
                ProbeDetail::Ultra => "ultra"@,
            },
    {
        match self {
            ProbeDetail::Low => "low",
            ProbeDetail::Medium => "medium",
            ProbeDetail::High => "high",
            ProbeDetail::Ultra => "ultra",
        }
    }
}

impl ScriptVec3 {
    /// The name under which it is chosen.
    pub fn label(self) -> (out: &'static str)
        ensures
            out@ == match self {
                ScriptVec3::Exact => "exact"@,
                ScriptVec3::Fast => "fast"@,
            },
    {
        match self {
            ScriptVec3::Exact => "exact",
            ScriptVec3::Fast => "fast",
        }
    }
}

/// The rendering settings of a project that are chosen from a list.
#[derive(Clone, Copy, Debug, PartialEq, Eq, Structural)]
pub struct RenderingChoices {
    pub vsync: Vsync,
    pub probe_detail: ProbeDetail,
    /// What was chosen for vectors. A project of which nothing was said goes by
    /// a default, and is pinned to it by the first look at it.
    pub script_vec3: Option<ScriptVec3>,
}

impl RenderingChoices {
    /// Takes what the lists show. Is the project to be saved? It is where that
    /// is anything else than what was set.
    pub fn choose_from_lists(
        &mut self,
        vsync: Vsync,
        probe_detail: ProbeDetail,
        script_vec3: ScriptVec3,
    ) -> (out: bool)
        ensures
            *final(self) == (RenderingChoices {
                vsync,
                probe_detail,
                script_vec3: Some(script_vec3),
            }),
            out == (*final(self) != *old(self)),
    {
        let pinned: bool = match self.script_vec3 {
            Some(v) => v == script_vec3,
            None => false,
        };
        let changed: bool = vsync != self.vsync || probe_detail != self.probe_detail || !pinned;
        self.vsync = vsync;
        self.probe_detail = probe_detail;
        self.script_vec3 = Some(script_vec3);
        changed
    }
}

// ---- layers ----------------------------------------------------------------

/// The layers of a project: those that sort what is drawn, those that group what
/// collides, and the pairs of the latter that do not collide.
pub struct ProjectLayers {
    pub sorting_layers: Vec<String>,
    pub layers: Vec<String>,
    pub no_collide: Vec<(String, String)>,
}

/// [`ProjectLayers`] as text.
#[verifier::ext_equal]
pub struct LayersModel {
    pub sorting: Seq<Seq<char>>,
    pub layers: Seq<Seq<char>>,
    pub apart: Seq<(Seq<char>, Seq<char>)>,
}

/// The texts of pairs of strings.
pub open spec fn pairs(v: Seq<(String, String)>) -> Seq<(Seq<char>, Seq<char>)> {
    v.map_values(|p: (String, String)| (p.0@, p.1@))
}

impl View for ProjectLayers {
    type V = LayersModel;

    open spec fn view(&self) -> LayersModel {
        LayersModel {
            sorting: texts(self.sorting_layers@),
            layers: texts(self.layers@),
            apart: pairs(self.no_collide@),
        }
    }
}

/// An edit of the list of sorting layers.
#[derive(Clone, Copy, Debug, PartialEq, Eq, Structural)]
pub enum SortEdit {
    /// This one goes further back.
    Up(usize),
    /// This one goes further to the front.
    Down(usize),
    /// This one goes.
    Remove(usize),
}

/// Can the edit be made to a list of `n`?
pub open spec fn edit_fits(edit: SortEdit, n: nat) -> bool {
    match edit {
        SortEdit::Up(i) => 0 < i < n,
        SortEdit::Down(i) => i + 1 < n,
        SortEdit::Remove(i) => i < n,
    }
}

/// `s` with its places `i` and `j` exchanged.
pub open spec fn exchanged<T>(s: Seq<T>, i: int, j: int) -> Seq<T> {
    s.update(i, s[j]).update(j, s[i])
}

/// The sorting layers after an edit.
pub open spec fn sorting_after(s: Seq<Seq<char>>, edit: SortEdit) -> Seq<Seq<char>> {
    match edit {
        SortEdit::Up(i) => exchanged(s, i as int, i - 1),
        SortEdit::Down(i) => exchanged(s, i as int, i + 1),
        SortEdit::Remove(i) => s.remove(i as int),
    }
}

/// A name with a rename followed through.
pub open spec fn renamed(name: Seq<char>, before: Seq<char>, after: Seq<char>) -> Seq<char> {
    if name == before {
        after
    } else {
        name
    }
}

/// Pairs with a rename followed through.
pub open spec fn pairs_renamed(
    apart: Seq<(Seq<char>, Seq<char>)>,
    before: Seq<char>,
    after: Seq<char>,
) -> Seq<(Seq<char>, Seq<char>)> {
    apart.map_values(
        |p: (Seq<char>, Seq<char>)| (renamed(p.0, before, after), renamed(p.1, before, after)),
    )
}

/// Does the pair name this layer?
pub open spec fn names_layer(p: (Seq<char>, Seq<char>), name: Seq<char>) -> bool {
    p.0 == name || p.1 == name
}

/// Is this the pair of `a` and `b`, in either order?
pub open spec fn is_pair(p: (Seq<char>, Seq<char>), a: Seq<char>, b: Seq<char>) -> bool {
    (p.0 == a && p.1 == b) || (p.0 == b && p.1 == a)
}

/// Are `a` and `b` kept apart?
pub open spec fn kept_apart(
    apart: Seq<(Seq<char>, Seq<char>)>,
    a: Seq<char>,
    b: Seq<char>,
) -> bool {
    exists|i: int| 0 <= i < apart.len() && is_pair(#[trigger] apart[i], a, b)
}

/// How many collision layers there can be.
pub const MAX_LAYERS: usize = 32;

/// Is `name` among `names`?
fn name_among(names: &Vec<String>, name: &str) -> (out: bool)
    ensures
        out == texts(names@).contains(name@),
{
    let mut i: usize = 0;
    while i < names.len()
        invariant
            i <= names.len(),
            forall|j: int| 0 <= j < i ==> texts(names@)[j] != name@,
        decreases names.len() - i,
    {
        if same_text(names[i].as_str(), name) {
            assert(texts(names@)[i as int] == name@);
            return true;
        }
        i += 1;
    }
    assert(!texts(names@).contains(name@)) by {
        if texts(names@).contains(name@) {
            let j = choose|j: int| 0 <= j < texts(names@).len() && texts(names@)[j] == name@;
        }
    }
    false
}

impl ProjectLayers {
    /// Makes an edit of the sorting layers.
    pub fn edit_sorting(&mut self, edit: SortEdit)
        requires
            edit_fits(edit, old(self)@.sorting.len()),
        ensures
            final(self)@ == (LayersModel {
                sorting: sorting_after(old(self)@.sorting, edit),
                ..old(self)@
            }),
    {
        let ghost was = self.sorting_layers@;
        match edit {
            SortEdit::Up(i) => {
                let name: String = self.sorting_layers.remove(i);
                self.sorting_layers.insert(i - 1, name);
            },
            SortEdit::Down(i) => {
                let n: usize = self.sorting_layers.len();
                assert(i + 1 < n);
                let name: String = self.sorting_layers.remove(i);
                self.sorting_layers.insert(i + 1, name);
            },
            SortEdit::Remove(i) => {
                let _gone: String = self.sorting_layers.remove(i);
            },
        }
        assert(texts(self.sorting_layers@) =~= sorting_after(texts(was), edit));
    }

    /// Adds a sorting layer in front of all, under the next number.
    pub fn add_sorting(&mut self)
        requires
            old(self)@.sorting.len() < usize::MAX,
        ensures
            final(self)@ == (LayersModel {
                sorting: old(self)@.sorting.push(
                    "Layer "@ + decimal(old(self)@.sorting.len() + 1),
                ),
                ..old(self)@
            }),
    {
        let ghost was = self.sorting_layers@;
        let n: u64 = self.sorting_layers.len() as u64 + 1;
        let name: String = joined("Layer ", decimal_text(n).as_str());
        self.sorting_layers.push(name);
        assert(texts(self.sorting_layers@) =~= texts(was).push(name@));
    }

    /// Renames a sorting layer. Nothing follows, and nothing is saved for it: nodes
    /// keep the name that they have.
    pub fn name_sorting(&mut self, i: usize, typed: &str)
        requires
            i < old(self)@.sorting.len(),
        ensures
            final(self)@ == (LayersModel {
                sorting: old(self)@.sorting.update(i as int, typed@),
                ..old(self)@
            }),
    {
        let ghost was = self.sorting_layers@;
        let name: String = copy_of(typed);
        self.sorting_layers.set(i, name);
        assert(texts(self.sorting_layers@) =~= texts(was).update(i as int, typed@));
    }

    /// Renames a layer. The pairs that are kept apart follow. What comes back is
    /// the old name and the new, for the nodes to follow too.
    pub fn rename_layer(&mut self, i: usize, after: &str) -> (out: (String, String))
        requires
            i < old(self)@.layers.len(),
        ensures
            out.0@ == old(self)@.layers[i as int],
            out.1@ == after@,
            final(self)@ == (LayersModel {
                layers: old(self)@.layers.update(i as int, after@),
                apart: pairs_renamed(old(self)@.apart, old(self)@.layers[i as int], after@),
                ..old(self)@
            }),
    {
        let before: String = copy_of(self.layers[i].as_str());
        let ghost layers_were = self.layers@;
        self.layers[i] = copy_of(after);
        assert(texts(self.layers@) =~= texts(layers_were).update(i as int, after@));
        let ghost were = self.no_collide@;
        let mut k: usize = 0;
        while k < self.no_collide.len()
            invariant
                k <= self.no_collide.len(),
                before@ == old(self)@.layers[i as int],
                self.sorting_layers == old(self).sorting_layers,
                texts(self.layers@) == old(self)@.layers.update(i as int, after@),
                were == old(self).no_collide@,
                self.no_collide@.len() == were.len(),
                forall|j: int|
                    0 <= j < k ==> #[trigger] pairs(self.no_collide@)[j] == pairs_renamed(
                        pairs(were),
                        before@,
                        after@,
                    )[j],
                forall|j: int|
                    k <= j < were.len() ==> #[trigger] self.no_collide@[j] == were[j],
            decreases self.no_collide.len() - k,
        {
            let ghost now = self.no_collide@;
            let a: String = if same_text(self.no_collide[k].0.as_str(), before.as_str()) {
                copy_of(after)
            } else {
                copy_of(self.no_collide[k].0.as_str())
            };
            let b: String = if same_text(self.no_collide[k].1.as_str(), before.as_str()) {
                copy_of(after)
            } else {
                copy_of(self.no_collide[k].1.as_str())
            };
            assert(self.no_collide@[k as int] == were[k as int]);
            self.no_collide[k] = (a, b);
            assert forall|j: int| 0 <= j < k + 1 implies #[trigger] pairs(self.no_collide@)[j]
                == pairs_renamed(pairs(were), before@, after@)[j] by {
                if j < k {
                    assert(pairs(now)[j] == pairs_renamed(pairs(were), before@, after@)[j]);
                }
            }
            k += 1;
        }
        assert(pairs(self.no_collide@) =~= pairs_renamed(pairs(were), before@, after@));
        (before, copy_of(after))
    }

    /// Keeps only the pairs that are marked to be kept.
    fn keep_pairs(&mut self, kept: &Vec<bool>, Ghost(keep): Ghost<
        spec_fn((Seq<char>, Seq<char>)) -> bool,
    >)
        requires
            kept@.len() == old(self).no_collide@.len(),
            forall|k: int|
                0 <= k < kept@.len() ==> #[trigger] kept@[k] == keep(old(self)@.apart[k]),
        ensures
            final(self)@ == (LayersModel {
                apart: old(self)@.apart.filter(keep),
                ..old(self)@
            }),
    {
        let ghost all = self@.apart;
        let mut j: usize = 0;
        let mut i: usize = 0;
        proof {
            lemma_filter_none(all, keep);
            assert(all.skip(0) =~= all);
            assert(self@.apart =~= all.take(0).filter(keep) + all.skip(0));
        }
        while j < kept.len()
            invariant
                kept@.len() == all.len(),
                forall|k: int| 0 <= k < kept@.len() ==> #[trigger] kept@[k] == keep(all[k]),
                0 <= j <= all.len(),
                i == all.take(j as int).filter(keep).len(),
                self@.apart == all.take(j as int).filter(keep) + all.skip(j as int),
                self.sorting_layers == old(self).sorting_layers,
                self.layers == old(self).layers,
            decreases all.len() - j,
        {
            proof {
                assert(self@.apart.len() == i + (all.len() - j));
                assert(self@.apart[i as int] == all[j as int]);
                lemma_filter_step(all, j as int, keep);
            }
            let ghost was = self.no_collide@;
            if kept[j] {
                assert(self@.apart =~= all.take(j + 1).filter(keep) + all.skip(j + 1));
                i += 1;
            } else {
                let _gone: (String, String) = self.no_collide.remove(i);
                proof {
                    assert(pairs(self.no_collide@) =~= pairs(was).remove(i as int));
                    assert(self@.apart =~= all.take(j + 1).filter(keep) + all.skip(j + 1));
                }
            }
            j += 1;
        }
        proof {
            lemma_filter_none(all, keep);
            assert(self@.apart =~= all.filter(keep));
        }
    }

    /// Removes a layer, and every pair that names it.
    pub fn remove_layer(&mut self, i: usize) -> (out: String)
        requires
            i < old(self)@.layers.len(),
        ensures
            out@ == old(self)@.layers[i as int],
            final(self)@ == (LayersModel {
                layers: old(self)@.layers.remove(i as int),
                apart: old(self)@.apart.filter(
                    |p: (Seq<char>, Seq<char>)| !names_layer(p, old(self)@.layers[i as int]),
                ),
                ..old(self)@
            }),
    {
        let ghost layers_were = self.layers@;
        let name: String = self.layers.remove(i);
        assert(texts(self.layers@) =~= texts(layers_were).remove(i as int));
        let mut kept: Vec<bool> = Vec::new();
        let mut k: usize = 0;
        while k < self.no_collide.len()
            invariant
                k <= self.no_collide.len(),
                kept@.len() == k,
                forall|j: int|
                    0 <= j < k ==> #[trigger] kept@[j] == !names_layer(
                        pairs(self.no_collide@)[j],
                        name@,
                    ),
            decreases self.no_collide.len() - k,
        {
            let p: &(String, String) = &self.no_collide[k];
            kept.push(
                !(same_text(p.0.as_str(), name.as_str()) || same_text(p.1.as_str(), name.as_str())),
            );
            k += 1;
        }
        self.keep_pairs(&kept, Ghost(|p: (Seq<char>, Seq<char>)| !names_layer(p, name@)));
        name
    }

    /// Adds the layer that was typed, where it is not blank. It is added where
    /// there is room for it and it is not there: `names` are the layers that
    /// there are, the one that always exists among them. What was typed is
    /// cleared either way. Was a layer added?
    pub fn add_layer(&mut self, typed: &mut String, names: &Vec<String>) -> (out: bool)
        ensures
            out == (trim(old(typed)@).len() > 0 && names@.len() < MAX_LAYERS && !texts(
                names@,
            ).contains(trim(old(typed)@))),
            final(typed)@ == if trim(old(typed)@).len() > 0 {
                seq![]
            } else {
                old(typed)@
            },
            final(self)@ == if out {
                LayersModel {
                    layers: old(self)@.layers.push(trim(old(typed)@)),
                    ..old(self)@
                }
            } else {
                old(self)@
            },
    {
        let name: String = trimmed_text(typed.as_str());
        if chars_of(name.as_str()).len() == 0 {
            return false;
        }
        let ghost was = self.layers@;
        let added: bool = names.len() < MAX_LAYERS && !name_among(names, name.as_str());
        if added {
            let ghost text = name@;
            self.layers.push(name);
            assert(texts(self.layers@) =~= texts(was).push(text));
        }
        *typed = String::new();
        added
    }

    /// Lets two layers collide, or keeps them apart.
    pub fn set_collides(&mut self, a: &str, b: &str, on: bool)
        ensures
            final(self)@ == (LayersModel {
                apart: if on {
                    old(self)@.apart.filter(|p: (Seq<char>, Seq<char>)| !is_pair(p, a@, b@))
                } else {
                    old(self)@.apart.push((a@, b@))
                },
                ..old(self)@
            }),
    {
        let ghost were = self.no_collide@;
        if !on {
            self.no_collide.push((copy_of(a), copy_of(b)));
            assert(pairs(self.no_collide@) =~= pairs(were).push((a@, b@)));
            return;
        }
        let mut kept: Vec<bool> = Vec::new();
        let mut k: usize = 0;
        while k < self.no_collide.len()
            invariant
                k <= self.no_collide.len(),
                kept@.len() == k,
                *self == *old(self),
                forall|j: int|
                    0 <= j < k ==> #[trigger] kept@[j] == !is_pair(
                        pairs(self.no_collide@)[j],
                        a@,
                        b@,
                    ),
            decreases self.no_collide.len() - k,
        {
            let p: &(String, String) = &self.no_collide[k];
            let there: bool = (same_text(p.0.as_str(), a) && same_text(p.1.as_str(), b)) || (
            same_text(p.0.as_str(), b) && same_text(p.1.as_str(), a));
            kept.push(!there);
            k += 1;
        }
        self.keep_pairs(&kept, Ghost(|p: (Seq<char>, Seq<char>)| !is_pair(p, a@, b@)));
    }
}

/// What happens in the row of a layer that can be removed.
#[derive(Clone, Copy, Debug, PartialEq, Eq, Structural)]
pub enum RemoveClick {
    /// The removal of this layer is asked for.
    Ask(usize),
    /// It is confirmed.
    Confirm(usize),
    /// It is called off.
    CallOff,
}

/// Removal cannot be undone, so it takes two clicks: the first arms it for one
/// layer, the second removes that layer. What comes back is the layer for which
/// it is armed then, and the layer to remove.
pub fn remove_click(armed: Option<usize>, click: RemoveClick) -> (out: (
    Option<usize>,
    Option<usize>,
))
    ensures
        out == match click {
            RemoveClick::Ask(i) => if armed == Some(i) {
                (armed, None::<usize>)
            } else {
                (Some(i), None::<usize>)
            },
            RemoveClick::Confirm(i) => if armed == Some(i) {
                (None::<usize>, Some(i))
            } else {
                (armed, None::<usize>)
            },
            RemoveClick::CallOff => (None::<usize>, None::<usize>),
        },
{
    match click {
        RemoveClick::Ask(i) => (Some(i), None),
        RemoveClick::Confirm(i) => {
            let right: bool = match armed {
                Some(a) => a == i,
                None => false,
            };
            if right {
                (None, Some(i))
            } else {
                (armed, None)
            }
        },
        RemoveClick::CallOff => (None, None),
    }
}

/// Moving a sorting layer back and then to the front again changes nothing.
pub proof fn law_up_and_down_undo_each_other(s: Seq<Seq<char>>, i: usize)
    requires
        edit_fits(SortEdit::Up(i), s.len()),
    ensures
        sorting_after(sorting_after(s, SortEdit::Up(i)), SortEdit::Down((i - 1) as usize)) == s,
{
    assert(sorting_after(
        sorting_after(s, SortEdit::Up(i)),
        SortEdit::Down((i - 1) as usize),
    ) =~= s);
}

/// Two layers that were kept apart and are let collide again are not kept apart;
/// and two that are kept apart are, in either order.
pub proof fn law_the_matrix_says_what_was_set(
    apart: Seq<(Seq<char>, Seq<char>)>,
    a: Seq<char>,
    b: Seq<char>,
)
    ensures
        kept_apart(apart.push((a, b)), a, b),
        kept_apart(apart.push((a, b)), b, a),
        !kept_apart(apart.filter(|p: (Seq<char>, Seq<char>)| !is_pair(p, a, b)), a, b),
        !kept_apart(apart.filter(|p: (Seq<char>, Seq<char>)| !is_pair(p, a, b)), b, a),
{
    let more = apart.push((a, b));
    assert(is_pair(more[apart.len() as int], a, b));
    assert(is_pair(more[apart.len() as int], b, a));
    let keep = |p: (Seq<char>, Seq<char>)| !is_pair(p, a, b);
    broadcast use vstd::seq_lib::group_filter_ensures;

    let left = apart.filter(keep);
    if kept_apart(left, a, b) {
        let i = choose|i: int| 0 <= i < left.len() && is_pair(#[trigger] left[i], a, b);
        assert(keep(left[i]));
    }
    if kept_apart(left, b, a) {
        let i = choose|i: int| 0 <= i < left.len() && is_pair(#[trigger] left[i], b, a);
        assert(keep(left[i]));
    }
}

/// Setting one pair leaves every other pair as it was.
pub proof fn law_the_matrix_leaves_other_pairs(
    apart: Seq<(Seq<char>, Seq<char>)>,
    a: Seq<char>,
    b: Seq<char>,
    c: Seq<char>,
    d: Seq<char>,
)
    requires
        !is_pair((a, b), c, d),
    ensures
        kept_apart(apart.push((a, b)), c, d) == kept_apart(apart, c, d),
        kept_apart(apart.filter(|p: (Seq<char>, Seq<char>)| !is_pair(p, a, b)), c, d)
            == kept_apart(apart, c, d),
{
    let more = apart.push((a, b));
    let keep = |p: (Seq<char>, Seq<char>)| !is_pair(p, a, b);
    let left = apart.filter(keep);
    broadcast use vstd::seq_lib::group_filter_ensures;

    if kept_apart(apart, c, d) {
        let i = choose|i: int| 0 <= i < apart.len() && is_pair(#[trigger] apart[i], c, d);
        assert(more[i] == apart[i]);
        assert(keep(apart[i]));
        assert(left.contains(apart[i]));
        let k = choose|k: int| 0 <= k < left.len() && left[k] == apart[i];
        assert(is_pair(left[k], c, d));
        assert(is_pair(more[i], c, d));
    }
    if kept_apart(more, c, d) {
        let i = choose|i: int| 0 <= i < more.len() && is_pair(#[trigger] more[i], c, d);
        assert(i < apart.len());
        assert(is_pair(apart[i], c, d));
    }
    if kept_apart(left, c, d) {
        let i = choose|i: int| 0 <= i < left.len() && is_pair(#[trigger] left[i], c, d);
        apart.lemma_filter_contains_rev(keep, left[i]);
        let k = choose|k: int| 0 <= k < apart.len() && apart[k] == left[i];
        assert(is_pair(apart[k], c, d));
    }
}

/// Once a layer is removed, no pair names it.
pub proof fn law_a_removed_layer_is_in_no_pair(
    apart: Seq<(Seq<char>, Seq<char>)>,
    name: Seq<char>,
    other: Seq<char>,
)
    ensures
        !kept_apart(
            apart.filter(|p: (Seq<char>, Seq<char>)| !names_layer(p, name)),
            name,
            other,
        ),
{
    let keep = |p: (Seq<char>, Seq<char>)| !names_layer(p, name);
    broadcast use vstd::seq_lib::group_filter_ensures;

    let left = apart.filter(keep);
    if kept_apart(left, name, other) {
        let i = choose|i: int| 0 <= i < left.len() && is_pair(#[trigger] left[i], name, other);
        assert(keep(left[i]));
    }
}

/// A rename follows through: what was kept apart from the old name is kept apart
/// from the new.
pub proof fn law_a_rename_follows_through(
    apart: Seq<(Seq<char>, Seq<char>)>,
    before: Seq<char>,
    after: Seq<char>,
    other: Seq<char>,
)
    requires
        kept_apart(apart, before, other),
        other != before,
    ensures
        kept_apart(pairs_renamed(apart, before, after), after, other),
{
    let i = choose|i: int| 0 <= i < apart.len() && is_pair(#[trigger] apart[i], before, other);
    assert(is_pair(pairs_renamed(apart, before, after)[i], after, other));
}

/// A layer that goes further back changes places with the one before it, one that goes to the
/// front with the one behind it, and one that is removed leaves the others in order.
pub proof fn law_a_layer_moves_by_one_place(s: Seq<Seq<char>>, edit: SortEdit, k: int)
    requires
        edit_fits(edit, s.len()),
        0 <= k < s.len(),
    ensures
        edit matches SortEdit::Up(i) ==> ({
            let t = sorting_after(s, edit);
            &&& t.len() == s.len()
            &&& t[i - 1] == s[i as int] && t[i as int] == s[i - 1]
            &&& k != i && k != i - 1 ==> t[k] == s[k]
        }),
        edit matches SortEdit::Down(i) ==> ({
            let t = sorting_after(s, edit);
            &&& t.len() == s.len()
            &&& t[i + 1] == s[i as int] && t[i as int] == s[i + 1]
            &&& k != i && k != i + 1 ==> t[k] == s[k]
        }),
        edit matches SortEdit::Remove(i) ==> ({
            let t = sorting_after(s, edit);
            &&& t.len() == s.len() - 1
            &&& k < i ==> t[k] == s[k]
            &&& k > i ==> t[k - 1] == s[k]
        }),
{
}

/// The first layer cannot go further back, nor the last to the front, nor one that is not
/// there anywhere.
pub proof fn law_no_layer_leaves_the_list(edit: SortEdit, n: nat)
    ensures
        !edit_fits(SortEdit::Up(0), n),
        n > 0 && n <= usize::MAX ==> !edit_fits(SortEdit::Down((n - 1) as usize), n),
        edit matches SortEdit::Up(i) ==> (edit_fits(edit, n) <==> 1 <= i && i < n),
        edit matches SortEdit::Down(i) ==> (edit_fits(edit, n) <==> i < n - 1),
        edit matches SortEdit::Remove(i) ==> (edit_fits(edit, n) <==> i < n),
{
}

/// A rename changes the name that is renamed, on both sides of a pair, and no other. The pairs
/// stay as many and in order; and a rename to a name that was not there can be taken back.
pub proof fn law_a_rename_changes_one_name(
    apart: Seq<(Seq<char>, Seq<char>)>,
    before: Seq<char>,
    after: Seq<char>,
    k: int,
)
    requires
        0 <= k < apart.len(),
    ensures
        ({
            let now = pairs_renamed(apart, before, after);
            &&& now.len() == apart.len()
            &&& apart[k].0 == before ==> now[k].0 == after
            &&& apart[k].1 == before ==> now[k].1 == after
            &&& apart[k].0 != before ==> now[k].0 == apart[k].0
            &&& apart[k].1 != before ==> now[k].1 == apart[k].1
        }),
        (forall|i: int| 0 <= i < apart.len() ==> !names_layer(#[trigger] apart[i], after))
            ==> pairs_renamed(pairs_renamed(apart, before, after), after, before) == apart,
{
    if forall|i: int| 0 <= i < apart.len() ==> !names_layer(#[trigger] apart[i], after) {
        let back = pairs_renamed(pairs_renamed(apart, before, after), after, before);
        assert forall|i: int| 0 <= i < apart.len() implies back[i] == apart[i] by {
            assert(!names_layer(apart[i], after));
        }
        assert(back =~= apart);
    }
}

/// The boxes of the matrix in the row of layer `i`, of `n` layers: one for each
/// pair, so none to the left of the diagonal.
pub open spec fn row_boxes(i: int, n: nat) -> Seq<(int, int)> {
    Seq::new((n - i) as nat, |k: int| (i, i + k))
}

/// The boxes of the first `rows` rows.
pub open spec fn boxes_above(rows: int, n: nat) -> Seq<(int, int)>
    decreases rows,
{
    if rows <= 0 {
        seq![]
    } else {
        boxes_above(rows - 1, n) + row_boxes(rows - 1, n)
    }
}

/// The boxes of the matrix for `n` layers. One layer alone has no matrix.
pub open spec fn matrix_boxes(n: nat) -> Seq<(int, int)> {
    if n > 1 {
        boxes_above(n as int, n)
    } else {
        seq![]
    }
}

/// Pairs of places as plain numbers.
pub open spec fn box_places(v: Seq<(usize, usize)>) -> Seq<(int, int)> {
    v.map_values(|b: (usize, usize)| (b.0 as int, b.1 as int))
}

/// The boxes of the matrix for `n` layers, row by row.
pub fn collision_matrix(n: usize) -> (out: Vec<(usize, usize)>)
    ensures
        box_places(out@) == matrix_boxes(n as nat),
{
    let mut out: Vec<(usize, usize)> = Vec::new();
    if n <= 1 {
        assert(box_places(out@) =~= matrix_boxes(n as nat));
        return out;
    }
    let mut i: usize = 0;
    assert(box_places(out@) =~= boxes_above(0, n as nat));
    while i < n
        invariant
            i <= n,
            box_places(out@) == boxes_above(i as int, n as nat),
        decreases n - i,
    {
        let mut j: usize = i;
        let ghost above = out@;
        assert(box_places(out@) =~= box_places(above) + row_boxes(i as int, n as nat).take(0));
        while j < n
            invariant
                i <= j <= n,
                i < n,
                box_places(out@) == box_places(above) + row_boxes(i as int, n as nat).take(j - i),
            decreases n - j,
        {
            let ghost was = out@;
            out.push((i, j));
            assert(box_places(out@) =~= box_places(was).push((i as int, j as int)));
            assert(row_boxes(i as int, n as nat).take(j + 1 - i) =~= row_boxes(
                i as int,
                n as nat,
            ).take(j - i).push((i as int, j as int)));
            j += 1;
        }
        assert(row_boxes(i as int, n as nat).take(n - i) =~= row_boxes(i as int, n as nat));
        i += 1;
    }
    out
}

/// The box of a pair is in its row of the matrix.
proof fn lemma_box_is_there(rows: int, n: nat, i: int, j: int)
    requires
        0 <= i < rows <= n,
        i <= j < n,
    ensures
        boxes_above(rows, n).contains((i, j)),
    decreases rows,
{
    let before = boxes_above(rows - 1, n);
    let row = row_boxes(rows - 1, n);
    if i == rows - 1 {
        assert((before + row)[before.len() + (j - i)] == (i, j));
    } else {
        lemma_box_is_there(rows - 1, n, i, j);
        let k = choose|k: int| 0 <= k < before.len() && before[k] == (i, j);
        assert((before + row)[k] == (i, j));
    }
}

/// The boxes of the first rows are of those rows, and right of the diagonal.
proof fn lemma_boxes_are_pairs(rows: int, n: nat, k: int)
    requires
        0 <= rows <= n,
        0 <= k < boxes_above(rows, n).len(),
    ensures
        0 <= boxes_above(rows, n)[k].0 <= boxes_above(rows, n)[k].1 < n,
        boxes_above(rows, n)[k].0 < rows,
    decreases rows,
{
    let before = boxes_above(rows - 1, n);
    if k < before.len() {
        lemma_boxes_are_pairs(rows - 1, n, k);
    }
}

/// No box of the first rows is there twice.
proof fn lemma_boxes_are_distinct(rows: int, n: nat, k: int, m: int)
    requires
        0 <= rows <= n,
        0 <= k < m < boxes_above(rows, n).len(),
    ensures
        boxes_above(rows, n)[k] != boxes_above(rows, n)[m],
    decreases rows,
{
    let before = boxes_above(rows - 1, n);
    if m < before.len() {
        lemma_boxes_are_distinct(rows - 1, n, k, m);
    } else if k < before.len() {
        lemma_boxes_are_pairs(rows - 1, n, k);
    }
}

/// Every pair of layers has its box in the matrix, whichever of them is named
/// first, and it has only one.
pub proof fn law_every_pair_has_one_box(n: nat, i: int, j: int)
    requires
        n > 1,
        0 <= i <= j < n,
    ensures
        exists|k: int|
            0 <= k < matrix_boxes(n).len() && #[trigger] matrix_boxes(n)[k] == (i, j) && forall|
                m: int,
            |
                0 <= m < matrix_boxes(n).len() && m != k ==> #[trigger] matrix_boxes(n)[m] != (
                i,
                j,
            ),
        !(i < j) || !matrix_boxes(n).contains((j, i)),
{
    let boxes = boxes_above(n as int, n);
    lemma_box_is_there(n as int, n, i, j);
    let k = choose|k: int| 0 <= k < boxes.len() && boxes[k] == (i, j);
    assert forall|m: int| 0 <= m < boxes.len() && m != k implies #[trigger] boxes[m] != (i, j) by {
        if m < k {
            lemma_boxes_are_distinct(n as int, n, m, k);
        } else {
            lemma_boxes_are_distinct(n as int, n, k, m);
        }
    }
    if boxes.contains((j, i)) {
        let m = choose|m: int| 0 <= m < boxes.len() && boxes[m] == (j, i);
        lemma_boxes_are_pairs(n as int, n, m);
    }
    assert(matrix_boxes(n)[k] == (i, j));
}

/// The row of the project's own font. `left` says that its field has just lost
/// the keyboard and `changed` that it holds something else; `cleared` that the
/// button beside it was clicked, which is there where there is a font. Is the
/// project to be saved?
pub fn font_row(font: &mut String, left: bool, changed: bool, cleared: bool) -> (out: bool)
    ensures
        out == ((left && changed) || (cleared && old(font)@.len() > 0)),
        final(font)@ == if cleared {
            Seq::empty()
        } else {
            old(font)@
        },
{
    let there: bool = chars_of(font.as_str()).len() > 0;
    if cleared {
        *font = copy_of("");
        proof {
            reveal_strlit("");
        }
        assert(font@ =~= Seq::empty());
    }
    (left && changed) || (cleared && there)
}

// ---- what a player needs ---------------------------------------------------

/// What a player needs to play: how large text is and how strong a correction of
/// colours (both as bits of numbers), which colours are corrected (0 for none),
/// and what is switched on.
#[derive(Clone, Copy, Debug, PartialEq, Eq, Structural)]
pub struct Access {
    pub text_scale: u32,
    pub filter: u32,
    pub strength: u32,
    pub simulate: bool,
    pub reduced_motion: bool,
    pub captions: bool,
}

/// An edit of what a player needs.
#[derive(Clone, Copy, Debug, PartialEq, Eq, Structural)]
pub enum AccessEdit {
    TextScale(u32),
    /// Text is as large as it is again.
    PlainText,
    Filter(u32),
    Strength(u32),
    Simulate(bool),
    ReducedMotion(bool),
    Captions(bool),
}

/// The bits of the number one.
pub const PLAIN_SCALE: u32 = 0x3f80_0000;

/// Are the rows of the correction shown? Only where colours are corrected.
pub fn shows_correction(a: Access) -> (out: bool)
    ensures
        out == (a.filter != 0),
{
    a.filter != 0
}

/// What a player needs, once it was edited. What has no row cannot be.
pub open spec fn edited(a: Access, e: AccessEdit) -> Option<Access> {
    match e {
        AccessEdit::TextScale(bits) => Some(Access { text_scale: bits, ..a }),
        AccessEdit::PlainText => Some(Access { text_scale: PLAIN_SCALE, ..a }),
        AccessEdit::Filter(f) => Some(Access { filter: f, ..a }),
        AccessEdit::Strength(bits) => if a.filter != 0 {
            Some(Access { strength: bits, ..a })
        } else {
            None
        },
        AccessEdit::Simulate(on) => if a.filter != 0 {
            Some(Access { simulate: on, ..a })
        } else {
            None
        },
        AccessEdit::ReducedMotion(on) => Some(Access { reduced_motion: on, ..a }),
        AccessEdit::Captions(on) => Some(Access { captions: on, ..a }),
    }
}

/// Edits what a player needs. The new settings, where that changed anything that
/// has a row.
pub fn edit_access(a: Access, e: AccessEdit) -> (out: Option<Access>)
    ensures
        out == edited(a, e),
{
    match e {
        AccessEdit::TextScale(bits) => Some(Access { text_scale: bits, ..a }),
        AccessEdit::PlainText => Some(Access { text_scale: PLAIN_SCALE, ..a }),
        AccessEdit::Filter(f) => Some(Access { filter: f, ..a }),
        AccessEdit::Strength(bits) => if a.filter != 0 {
            Some(Access { strength: bits, ..a })
        } else {
            None
        },
        AccessEdit::Simulate(on) => if a.filter != 0 {
            Some(Access { simulate: on, ..a })
        } else {
            None
        },
        AccessEdit::ReducedMotion(on) => Some(Access { reduced_motion: on, ..a }),
        AccessEdit::Captions(on) => Some(Access { captions: on, ..a }),
    }
}

/// An edit changes what it names and nothing else. How strong a correction is, and whether it
/// is only simulated, can be edited exactly while colours are corrected; all else always.
pub proof fn law_an_edit_changes_what_it_names(a: Access, e: AccessEdit)
    ensures
        edited(a, e) is Some <==> a.filter != 0 || !(e is Strength || e is Simulate),
        edited(a, e) matches Some(b) ==> ({
            &&& e matches AccessEdit::TextScale(bits) ==> b.text_scale == bits
            &&& e is PlainText ==> b.text_scale == PLAIN_SCALE
            &&& !(e is TextScale || e is PlainText) ==> b.text_scale == a.text_scale
            &&& e matches AccessEdit::Filter(f) ==> b.filter == f
            &&& !(e is Filter) ==> b.filter == a.filter
            &&& e matches AccessEdit::Strength(bits) ==> b.strength == bits
            &&& !(e is Strength) ==> b.strength == a.strength
            &&& e matches AccessEdit::Simulate(on) ==> b.simulate == on
            &&& !(e is Simulate) ==> b.simulate == a.simulate
            &&& e matches AccessEdit::ReducedMotion(on) ==> b.reduced_motion == on
            &&& !(e is ReducedMotion) ==> b.reduced_motion == a.reduced_motion
            &&& e matches AccessEdit::Captions(on) ==> b.captions == on
            &&& !(e is Captions) ==> b.captions == a.captions
        }),
{
}

/// A layer is removed only where its removal was asked for and then confirmed for that very
/// layer; afterwards nothing is asked for.
pub proof fn law_a_removal_is_asked_for_and_confirmed(
    armed: Option<usize>,
    click: RemoveClick,
    out: (Option<usize>, Option<usize>),
)
    requires
        call_ensures(remove_click, (armed, click), out),
    ensures
        out.1 is Some <==> (click matches RemoveClick::Confirm(i) && armed == Some(i)),
        out.1 is Some ==> out.1 == armed && out.0 is None,
        click matches RemoveClick::Ask(i) ==> out.0 == Some(i),
        click matches RemoveClick::Confirm(i) ==> (armed != Some(i) ==> out.0 == armed),
        click is CallOff ==> out.0 is None,
{
}

/// A title of white space alone is none, and any other is kept as it was typed; likewise the
/// number zero is no number of the shop.
pub proof fn law_what_is_left_empty_is_not_set(typed: &str, title: Option<String>, n: u32, id: Option<u32>)
    requires
        call_ensures(title_from, (typed,), title),
        call_ensures(steam_id_from, (n,), id),
    ensures
        title is Some <==> trim(typed@).len() > 0,
        title matches Some(t) ==> t@ == typed@,
        id is Some <==> n != 0,
        id matches Some(i) ==> i == n,
{
}

/// Every section is kept in the project's own file; the keys and buttons alone have another
/// beside it.
pub proof fn law_every_section_is_kept_in_the_project(section: SettingsSection, out: Vec<&'static str>)
    requires
        call_ensures(kept_in, (section,), out),
    ensures
        out@.len() > 0,
        out@[0]@ == "project.ron"@,
        out@.len() > 1 <==> section == SettingsSection::Input,
        section == SettingsSection::Input ==> out@.len() == 2 && out@[1]@ == "input.ron"@,
{
}

/// No two sections have one icon.
pub proof fn law_every_section_has_its_own_icon(a: SettingsSection, b: SettingsSection, x: Icon, y: Icon)
    requires
        call_ensures(SettingsSection::icon, (a,), x),
        call_ensures(SettingsSection::icon, (b,), y),
        x == y,
    ensures
        a == b,
{
}

/// What was searched for goes where the button is clicked, or by Escape while it is typed;
/// otherwise it stays.
pub proof fn law_a_search_is_cleared_on_demand(search: &mut String, button: bool, focused: bool, escape: bool)
    requires
        call_ensures(clear_search, (search, button, focused, escape), ()),
    ensures
        button ==> final(search)@.len() == 0,
        focused && escape ==> final(search)@.len() == 0,
        !button && !escape ==> final(search)@ == old(search)@,
        !button && !focused ==> final(search)@ == old(search)@,
{
}

/// What is chosen from the lists is what is set, and to choose it again changes nothing.
pub proof fn law_a_choice_is_made_once(
    once: &mut RenderingChoices,
    twice: &mut RenderingChoices,
    vsync: Vsync,
    probe: ProbeDetail,
    vec3: ScriptVec3,
    x: bool,
    y: bool,
)
    requires
        call_ensures(RenderingChoices::choose_from_lists, (once, vsync, probe, vec3), x),
        call_ensures(RenderingChoices::choose_from_lists, (twice, vsync, probe, vec3), y),
        *old(twice) == *final(once),
    ensures
        final(once).vsync == vsync,
        final(once).probe_detail == probe,
        final(once).script_vec3 == Some(vec3),
        x <==> !(old(once).vsync == vsync && old(once).probe_detail == probe && old(once).script_vec3
            == Some(vec3)),
        !y,
{
}

/// To name a layer renames that one and no other, and moves none.
pub proof fn law_one_layer_is_named(s: &mut ProjectLayers, i: usize, typed: &str, j: int)
    requires
        i < old(s)@.sorting.len(),
        0 <= j < old(s)@.sorting.len(),
        call_ensures(ProjectLayers::name_sorting, (s, i, typed), ()),
    ensures
        final(s)@.sorting.len() == old(s)@.sorting.len(),
        j == i ==> final(s)@.sorting[j] == typed@,
        j != i ==> final(s)@.sorting[j] == old(s)@.sorting[j],
{
}

/// How strongly colours are corrected is asked for exactly where they are.
pub proof fn law_a_correction_is_shown_where_there_is_one(a: Access, out: bool)
    requires
        call_ensures(shows_correction, (a,), out),
    ensures
        out <==> a.filter != 0,
{
}

/// A layer that is added comes last, under a number of its own, and moves no other.
pub proof fn law_an_added_layer_comes_last(s: &mut ProjectLayers, i: int)
    requires
        old(s)@.sorting.len() < usize::MAX,
        call_ensures(ProjectLayers::add_sorting, (s,), ()),
        0 <= i < old(s)@.sorting.len(),
    ensures
        final(s)@.sorting.len() == old(s)@.sorting.len() + 1,
        final(s)@.sorting[i] == old(s)@.sorting[i],
        final(s)@.sorting.last() == "Layer "@ + decimal(final(s)@.sorting.len()),
        final(s)@.layers == old(s)@.layers && final(s)@.apart == old(s)@.apart,
{
}

/// To rename a layer renames it alone, and tells what it was called and is called; the pairs that
/// are kept apart go on under the new name.
pub proof fn law_a_renamed_layer_stays_in_place(
    s: &mut ProjectLayers,
    i: usize,
    after: &str,
    out: (String, String),
    j: int,
)
    requires
        i < old(s)@.layers.len(),
        0 <= j < old(s)@.layers.len(),
        call_ensures(ProjectLayers::rename_layer, (s, i, after), out),
    ensures
        out.0@ == old(s)@.layers[i as int] && out.1@ == after@,
        final(s)@.layers.len() == old(s)@.layers.len(),
        j == i ==> final(s)@.layers[j] == after@,
        j != i ==> final(s)@.layers[j] == old(s)@.layers[j],
        final(s)@.apart == pairs_renamed(old(s)@.apart, out.0@, out.1@),
        final(s)@.sorting == old(s)@.sorting,
{
}

/// A layer that is removed is told of and gone, and so are the pairs that named it, and no
/// others.
pub proof fn law_a_removed_layer_takes_its_pairs(
    s: &mut ProjectLayers,
    i: usize,
    out: String,
    p: (Seq<char>, Seq<char>),
)
    requires
        i < old(s)@.layers.len(),
        call_ensures(ProjectLayers::remove_layer, (s, i), out),
    ensures
        out@ == old(s)@.layers[i as int],
        final(s)@.layers == old(s)@.layers.take(i as int) + old(s)@.layers.skip(i + 1),
        final(s)@.apart.contains(p) <==> old(s)@.apart.contains(p) && p.0 != out@ && p.1 != out@,
        final(s)@.sorting == old(s)@.sorting,
{
    let was = old(s)@;
    lemma_filter_holds(
        was.apart,
        |p: (Seq<char>, Seq<char>)| !names_layer(p, was.layers[i as int]),
        p,
    );
    assert(final(s)@.layers =~= was.layers.take(i as int) + was.layers.skip(i + 1));
}

/// A layer is added under what was typed, without the white space round it, where that is a new
/// name and there is room; once something was typed the field is empty again.
pub proof fn law_a_layer_is_added_under_a_new_name(
    s: &mut ProjectLayers,
    typed: &mut String,
    names: &Vec<String>,
    out: bool,
)
    requires
        call_ensures(ProjectLayers::add_layer, (s, typed, names), out),
    ensures
        out ==> final(s)@.layers == old(s)@.layers.push(trim(old(typed)@)) && !texts(
            names@,
        ).contains(trim(old(typed)@)) && names@.len() < MAX_LAYERS,
        !out ==> final(s)@ == old(s)@,
        final(s)@.apart == old(s)@.apart && final(s)@.sorting == old(s)@.sorting,
        trim(old(typed)@).len() == 0 ==> !out && final(typed)@ == old(typed)@,
        trim(old(typed)@).len() > 0 ==> final(typed)@.len() == 0,
        trim(old(typed)@).len() > 0 && names@.len() < MAX_LAYERS && !texts(names@).contains(
            trim(old(typed)@),
        ) ==> out,
{
}

/// To keep two layers apart and to let them meet again is what was before, if they met before;
/// no other pair is touched.
pub proof fn law_layers_meet_or_are_kept_apart(
    off: &mut ProjectLayers,
    on: &mut ProjectLayers,
    a: &str,
    b: &str,
    p: (Seq<char>, Seq<char>),
)
    requires
        call_ensures(ProjectLayers::set_collides, (off, a, b, false), ()),
        call_ensures(ProjectLayers::set_collides, (on, a, b, true), ()),
        old(on)@ == final(off)@,
    ensures
        final(off)@.apart.contains((a@, b@)),
        !final(on)@.apart.contains((a@, b@)) && !final(on)@.apart.contains((b@, a@)),
        !(p == (a@, b@) || p == (b@, a@)) ==> (final(on)@.apart.contains(p) <==> old(
            off,
        )@.apart.contains(p)),
        final(off)@.layers == old(off)@.layers && final(on)@.layers == old(on)@.layers,
{
    let was = old(off)@.apart;
    let mid = final(off)@.apart;
    let keep = |p: (Seq<char>, Seq<char>)| !is_pair(p, a@, b@);
    lemma_filter_holds(mid, keep, p);
    lemma_filter_holds(mid, keep, (a@, b@));
    lemma_filter_holds(mid, keep, (b@, a@));
    assert(mid[was.len() as int] == (a@, b@));
    if was.contains(p) {
        let i = choose|i: int| 0 <= i < was.len() && was[i] == p;
        assert(mid[i] == p);
    }
    if mid.contains(p) && p != (a@, b@) {
        let i = choose|i: int| 0 <= i < mid.len() && mid[i] == p;
        assert(was[i] == p);
    }
}

/// A font is set once its field is left, and clearing it sets none.
pub proof fn law_a_font_is_set_when_its_field_is_left(
    font: &mut String,
    left: bool,
    changed: bool,
    cleared: bool,
    out: bool,
)
    requires
        call_ensures(font_row, (font, left, changed, cleared), out),
    ensures
        cleared ==> final(font)@.len() == 0,
        !cleared ==> final(font)@ == old(font)@ && (out <==> left && changed),
        cleared && old(font)@.len() > 0 ==> out,
        cleared && !(left && changed) && old(font)@.len() == 0 ==> !out,
{
}

/// A scene is called by the stem of its file, and by its path where that has none. What is set
/// to be played first is; else there is a scene that stands for it.
pub proof fn law_a_scene_is_called_by_its_stem(path: &str, out: String, set: Seq<char>)
    requires
        call_ensures(scene_label, (path,), out),
    ensures
        stem_in(path@) matches Some(stem) ==> out@ == stem,
        stem_in(path@) is None ==> out@ == path@,
        entry_scene_of(Some(set)) == set,
{
}

/// Every two layers have one box in the matrix, and each has one with itself.
pub proof fn law_every_two_layers_have_a_box(rows: int, n: nat, b: (int, int))
    requires
        0 <= rows <= n,
    ensures
        boxes_above(rows, n).contains(b) <==> 0 <= b.0 < rows && b.0 <= b.1 < n,
        boxes_above(rows, n).no_duplicates(),
    decreases rows,
{
    if rows > 0 {
        law_every_two_layers_have_a_box(rows - 1, n, b);
        let above = boxes_above(rows - 1, n);
        let row = row_boxes(rows - 1, n);
        let all = boxes_above(rows, n);
        assert(all =~= above + row);
        if above.contains(b) {
            let i = choose|i: int| 0 <= i < above.len() && above[i] == b;
            assert(all[i] == b);
        }
        if b.0 == rows - 1 && b.0 <= b.1 < n {
            assert(row[b.1 - b.0] == b);
            assert(all[above.len() + (b.1 - b.0)] == b);
        }
        if all.contains(b) {
            let i = choose|i: int| 0 <= i < all.len() && all[i] == b;
            if i < above.len() {
                assert(above[i] == b);
            } else {
                assert(row[i - above.len()] == b);
            }
        }
        assert forall|i: int, j: int| 0 <= i < all.len() && 0 <= j < all.len() && i != j implies all[i]
            != all[j] by {
            if i < above.len() {
                law_every_two_layers_have_a_box(rows - 1, n, above[i]);
                assert(above.contains(above[i]));
            }
            if j < above.len() {
                law_every_two_layers_have_a_box(rows - 1, n, above[j]);
                assert(above.contains(above[j]));
            }
        }
    } else {
        assert(boxes_above(rows, n).len() == 0);
    }
}

} // verus!
