//! Shipping a server build: which bundle goes up, what is said on the way, and
//! how it ends.
//!
//! A bundle carries the time it was exported, so exporting again makes another
//! file, and the site would start from nothing. So a bundle waits between runs
//! beside a note of the project it came from. While the project stays as it is,
//! the next run carries on with that bundle.

use crate::json::{flag_fields, json_object, json_object_form, number_fields, text_fields};
use crate::lists::{lemma_filter_none, lemma_filter_step};
use crate::paths::{join_path, path_below};
use crate::script_meta::opt_text;
use crate::system_gen::{line_models, LogLevel, LogLine};
use crate::text::{
    begins_with, chars_of, copy_of, has_prefix, hex_form, hex_of, joined,
    lemma_hex_is_one_to_one, lemma_sixteen_digits_suffice, same_text, spells, text_of, trim,
    trimmed,
};
use vstd::prelude::*;

verus! {

// ---- the stamp of a project ------------------------------------------------

/// A file of a project: its path below the project, when it was last changed (in
/// milliseconds), and its size.
pub struct ProjectFile {
    pub path: String,
    pub changed: u64,
    pub size: u64,
}

/// Is a path one of the editor's own, which change whenever a project is opened?
pub open spec fn is_editors_own(path: Seq<char>) -> bool {
    path == ".floptle"@ || has_prefix(path, ".floptle/"@)
}

/// The files that a stamp is made of.
pub open spec fn stamped(files: Seq<ProjectFile>) -> Seq<ProjectFile> {
    files.filter(|f: ProjectFile| !is_editors_own(f.path@))
}

/// The size of all of `files` together.
pub open spec fn total_size(files: Seq<ProjectFile>) -> nat
    decreases files.len(),
{
    if files.len() == 0 {
        0
    } else {
        total_size(files.drop_last()) + files.last().size as nat
    }
}

/// When the latest of `files` was changed, or 0.
pub open spec fn newest_change(files: Seq<ProjectFile>) -> u64
    decreases files.len(),
{
    if files.len() == 0 {
        0
    } else {
        let before = newest_change(files.drop_last());
        if files.last().changed > before {
            files.last().changed
        } else {
            before
        }
    }
}

/// The stamp of a project with these files: how many there are, the newest
/// change, and their size.
pub open spec fn stamp_of(files: Seq<ProjectFile>) -> (nat, nat, nat) {
    let kept = stamped(files);
    (kept.len(), newest_change(kept) as nat, total_size(kept))
}

/// The parts are no larger than the whole.
proof fn lemma_size_grows(files: Seq<ProjectFile>, i: int)
    requires
        0 <= i <= files.len(),
    ensures
        total_size(files.take(i)) <= total_size(files),
    decreases files.len() - i,
{
    if i < files.len() {
        lemma_size_grows(files, i + 1);
        assert(files.take(i + 1).drop_last() =~= files.take(i));
    } else {
        assert(files.take(i) =~= files);
    }
}

/// The first of the kept files are those kept of the first files.
proof fn lemma_stamped_step(files: Seq<ProjectFile>, i: int)
    requires
        0 <= i < files.len(),
    ensures
        stamped(files.take(i + 1)) == if is_editors_own(files[i].path@) {
            stamped(files.take(i))
        } else {
            stamped(files.take(i)).push(files[i])
        },
{
    lemma_filter_step(files, i, |f: ProjectFile| !is_editors_own(f.path@));
}

/// What is kept of the first files is no larger than what is kept of all.
proof fn lemma_stamped_size_grows(files: Seq<ProjectFile>, i: int)
    requires
        0 <= i <= files.len(),
    ensures
        total_size(stamped(files.take(i))) <= total_size(stamped(files)),
    decreases files.len() - i,
{
    if i < files.len() {
        lemma_stamped_size_grows(files, i + 1);
        lemma_stamped_step(files, i);
        let less = stamped(files.take(i));
        let more = stamped(files.take(i + 1));
        if !is_editors_own(files[i].path@) {
            assert(more.drop_last() =~= less);
        }
    } else {
        assert(files.take(i) =~= files);
    }
}

/// Is a path one of the editor's own?
fn editors_own(path: &str) -> (out: bool)
    ensures
        out == is_editors_own(path@),
{
    let p: Vec<char> = chars_of(path);
    spells(p.as_slice(), ".floptle") || begins_with(p.as_slice(), chars_of(".floptle/").as_slice())
}

/// The stamp of a project with these files: how many there are, the newest
/// change, and their size. The editor's own folder does not count.
pub fn project_stamp(files: &Vec<ProjectFile>) -> (out: (u64, u64, u64))
    requires
        total_size(stamped(files@)) <= u64::MAX,
    ensures
        (out.0 as nat, out.1 as nat, out.2 as nat) == stamp_of(files@),
{
    let mut count: u64 = 0;
    let mut newest: u64 = 0;
    let mut total: u64 = 0;
    let mut i: usize = 0;
    proof {
        lemma_filter_none(files@, |f: ProjectFile| !is_editors_own(f.path@));
    }
    while i < files.len()
        invariant
            i <= files.len(),
            total_size(stamped(files@)) <= u64::MAX,
            count <= i,
            (count as nat, newest as nat, total as nat) == stamp_of(files@.take(i as int)),
        decreases files.len() - i,
    {
        proof {
            lemma_stamped_step(files@, i as int);
            lemma_stamped_size_grows(files@, i + 1);
        }
        let f: &ProjectFile = &files[i];
        if !editors_own(f.path.as_str()) {
            proof {
                assert(stamped(files@.take(i + 1)).drop_last() =~= stamped(files@.take(i as int)));
            }
            count += 1;
            total += f.size;
            if f.changed > newest {
                newest = f.changed;
            }
        }
        i += 1;
    }
    assert(files@.take(i as int) =~= files@);
    (count, newest, total)
}

/// Whatever happens in the editor's own folder, the stamp stays.
pub proof fn law_the_editors_own_folder_does_not_move_the_stamp(
    files: Seq<ProjectFile>,
    f: ProjectFile,
    at: int,
)
    requires
        0 <= at <= files.len(),
        is_editors_own(f.path@),
    ensures
        stamp_of(files.insert(at, f)) == stamp_of(files),
{
    let keep = |f: ProjectFile| !is_editors_own(f.path@);
    let more = files.insert(at, f);
    assert(more =~= files.take(at) + (seq![f] + files.skip(at)));
    assert(files =~= files.take(at) + files.skip(at));
    Seq::filter_distributes_over_add(files.take(at), seq![f] + files.skip(at), keep);
    Seq::filter_distributes_over_add(seq![f], files.skip(at), keep);
    Seq::filter_distributes_over_add(files.take(at), files.skip(at), keep);
    lemma_filter_none(seq![f], keep);
    lemma_filter_step(seq![f], 0, keep);
    assert(seq![f].take(1) =~= seq![f]);
    assert(stamped(seq![f]) =~= Seq::empty());
    assert(stamped(more) =~= stamped(files));
}

/// What is kept of a list with one file in it is what is kept of the files
/// before it, that file, and what is kept of those behind it.
proof fn lemma_stamped_around(files: Seq<ProjectFile>, at: int)
    requires
        0 <= at < files.len(),
        !is_editors_own(files[at].path@),
    ensures
        stamped(files) == stamped(files.take(at)).push(files[at]) + stamped(files.skip(at + 1)),
{
    let keep = |f: ProjectFile| !is_editors_own(f.path@);
    lemma_stamped_step(files, at);
    assert(files =~= files.take(at + 1) + files.skip(at + 1));
    Seq::filter_distributes_over_add(files.take(at + 1), files.skip(at + 1), keep);
}

/// The size of two lists together.
proof fn lemma_total_of_two(a: Seq<ProjectFile>, b: Seq<ProjectFile>)
    ensures
        total_size(a + b) == total_size(a) + total_size(b),
    decreases b.len(),
{
    if b.len() == 0 {
        assert(a + b =~= a);
    } else {
        lemma_total_of_two(a, b.drop_last());
        assert((a + b).drop_last() =~= a + b.drop_last());
        assert((a + b).last() == b.last());
    }
}

/// A new file moves the stamp, and so does one that goes away.
pub proof fn law_a_new_file_moves_the_stamp(files: Seq<ProjectFile>, f: ProjectFile, at: int)
    requires
        0 <= at <= files.len(),
        !is_editors_own(f.path@),
    ensures
        stamp_of(files.insert(at, f)) != stamp_of(files),
{
    let keep = |f: ProjectFile| !is_editors_own(f.path@);
    let more = files.insert(at, f);
    lemma_stamped_around(more, at);
    assert(more.take(at) =~= files.take(at));
    assert(more.skip(at + 1) =~= files.skip(at));
    assert(files =~= files.take(at) + files.skip(at));
    Seq::filter_distributes_over_add(files.take(at), files.skip(at), keep);
}

/// A file that changes its size moves the stamp, whenever it says that it was
/// changed.
pub proof fn law_a_file_of_another_size_moves_the_stamp(
    files: Seq<ProjectFile>,
    at: int,
    f: ProjectFile,
)
    requires
        0 <= at < files.len(),
        !is_editors_own(files[at].path@),
        f.path == files[at].path,
        f.size != files[at].size,
    ensures
        stamp_of(files.update(at, f)) != stamp_of(files),
{
    let after = files.update(at, f);
    lemma_stamped_around(files, at);
    lemma_stamped_around(after, at);
    assert(after.take(at) =~= files.take(at));
    assert(after.skip(at + 1) =~= files.skip(at + 1));
    let head = stamped(files.take(at));
    let tail = stamped(files.skip(at + 1));
    lemma_total_of_two(head.push(f), tail);
    lemma_total_of_two(head.push(files[at]), tail);
    assert(head.push(f).drop_last() =~= head);
    assert(head.push(files[at]).drop_last() =~= head);
}

/// No file was changed later than the newest change says.
proof fn lemma_newest(files: Seq<ProjectFile>, i: int)
    requires
        0 <= i < files.len(),
    ensures
        files[i].changed <= newest_change(files),
    decreases files.len(),
{
    if i < files.len() - 1 {
        assert(files.drop_last()[i] == files[i]);
        lemma_newest(files.drop_last(), i);
    }
}

/// A file that is changed later than all others were moves the stamp.
pub proof fn law_a_later_change_moves_the_stamp(files: Seq<ProjectFile>, at: int, f: ProjectFile)
    requires
        0 <= at < files.len(),
        !is_editors_own(files[at].path@),
        f.path == files[at].path,
        f.changed > newest_change(stamped(files)),
    ensures
        stamp_of(files.update(at, f)) != stamp_of(files),
{
    let after = files.update(at, f);
    lemma_stamped_around(after, at);
    assert(after.take(at) =~= files.take(at));
    let head = stamped(files.take(at));
    assert(stamped(after)[head.len() as int] == f);
    lemma_newest(stamped(after), head.len() as int);
}

/// The editor's own folder is that folder and all that lies in it, and nothing that is only
/// called alike.
pub proof fn law_only_its_own_folder_is_the_editors(rest: Seq<char>)
    ensures
        is_editors_own(".floptle"@),
        is_editors_own(".floptle/"@ + rest),
        rest.len() > 0 && rest[0] != '/' ==> !is_editors_own(".floptle"@ + rest),
        rest.len() > 0 && rest[0] != '.' ==> !is_editors_own(rest),
        !is_editors_own(Seq::empty()),
{
    reveal_strlit(".floptle");
    reveal_strlit(".floptle/");
    let inside = ".floptle/"@ + rest;
    assert(inside.take(".floptle/"@.len() as int) =~= ".floptle/"@);
    if rest.len() > 0 && rest[0] != '/' {
        let like = ".floptle"@ + rest;
        assert(like[8] == rest[0]);
        assert(".floptle/"@[8] == '/');
        if has_prefix(like, ".floptle/"@) {
            assert(like.take(9)[8] == like[8]);
        }
        assert(like.len() > ".floptle"@.len());
    }
    assert(".floptle"@[0] == '.' && ".floptle/"@[0] == '.');
    if rest.len() > 0 && rest[0] != '.' && has_prefix(rest, ".floptle/"@) {
        assert(rest.take(9)[0] == rest[0]);
    }
}

/// The newest change is that of a file, and none was changed later; without files it is zero.
pub proof fn law_the_newest_change_is_a_files(files: Seq<ProjectFile>)
    ensures
        forall|i: int| 0 <= i < files.len() ==> (#[trigger] files[i]).changed <= newest_change(files),
        files.len() > 0 ==> exists|i: int|
            0 <= i < files.len() && (#[trigger] files[i]).changed == newest_change(files),
        files.len() == 0 ==> newest_change(files) == 0 && total_size(files) == 0,
    decreases files.len(),
{
    assert forall|i: int| 0 <= i < files.len() implies (#[trigger] files[i]).changed
        <= newest_change(files) by {
        lemma_newest(files, i);
    }
    if files.len() > 0 {
        let less = files.drop_last();
        law_the_newest_change_is_a_files(less);
        if files.last().changed > newest_change(less) || less.len() == 0 {
            assert(files[files.len() - 1].changed == newest_change(files));
        } else {
            let i = choose|i: int|
                0 <= i < less.len() && (#[trigger] less[i]).changed == newest_change(less);
            assert(files[i] == less[i]);
        }
    }
}

/// A stamp counts the files, takes their newest change and adds up their sizes.
pub proof fn law_a_stamp_counts_and_adds(files: Seq<ProjectFile>, f: ProjectFile)
    requires
        !is_editors_own(f.path@),
    ensures
        stamp_of(files.push(f)).0 == stamp_of(files).0 + 1,
        stamp_of(files.push(f)).2 == stamp_of(files).2 + f.size,
        stamp_of(files.push(f)).1 >= f.changed,
        stamp_of(files.push(f)).1 >= stamp_of(files).1,
        stamp_of(files.push(f)).1 == f.changed || stamp_of(files.push(f)).1 == stamp_of(files).1,
        stamp_of(Seq::empty()) == (0nat, 0nat, 0nat),
{
    let all = files.push(f);
    lemma_stamped_step(all, files.len() as int);
    assert(all.take(files.len() as int) =~= files);
    assert(all.take((files.len() + 1) as int) =~= all);
    assert(stamped(files).push(f).drop_last() =~= stamped(files));
    let none = Seq::<ProjectFile>::empty();
    assert(stamped(none) =~= none) by {
        reveal(Seq::filter);
    }
}

// ---- the bundle that goes up -----------------------------------------------

/// The note beside a bundle: what it was made from, and what it is.
pub struct Pending {
    pub project: String,
    pub scene: Option<String>,
    pub label: Option<String>,
    pub project_stamp: (u64, u64, u64),
    pub sha256: String,
    pub size: u64,
    pub engine: String,
}

/// What is to be shipped.
pub struct Shipment {
    pub project: String,
    pub scene: Option<String>,
    pub label: Option<String>,
    pub project_stamp: (u64, u64, u64),
    /// Is a new bundle asked for in any case?
    pub fresh: bool,
}

/// Was the noted bundle made from what is to be shipped?
pub open spec fn made_from(p: Pending, s: Shipment) -> bool {
    p.project@ == s.project@ && opt_text(p.scene) == opt_text(s.scene) && opt_text(p.label)
        == opt_text(s.label) && p.project_stamp == s.project_stamp
}

/// Does a run carry on with the bundle that an earlier one left? `there` is the
/// size of the bundle that is there.
pub open spec fn carries_on_with(previous: Option<Pending>, s: Shipment, there: Option<u64>) -> bool {
    previous matches Some(p) && !s.fresh && made_from(p, s) && there == Some(p.size)
}

/// Are two texts, either of which may be missing, the same?
fn same_opt(a: &Option<String>, b: &Option<String>) -> (out: bool)
    ensures
        out == (opt_text(*a) == opt_text(*b)),
{
    match (a, b) {
        (None, None) => true,
        (Some(x), Some(y)) => same_text(x.as_str(), y.as_str()),
        _ => false,
    }
}

/// Does a run carry on with the bundle that an earlier one left?
pub fn carries_on(previous: &Option<Pending>, s: &Shipment, there: Option<u64>) -> (out: bool)
    ensures
        out == carries_on_with(*previous, *s, there),
{
    match previous {
        Some(p) => {
            let size_fits: bool = match there {
                Some(n) => n == p.size,
                None => false,
            };
            !s.fresh && same_text(p.project.as_str(), s.project.as_str()) && same_opt(
                &p.scene,
                &s.scene,
            ) && same_opt(&p.label, &s.label) && p.project_stamp.0 == s.project_stamp.0
                && p.project_stamp.1 == s.project_stamp.1 && p.project_stamp.2
                == s.project_stamp.2 && size_fits
        },
        None => false,
    }
}

/// A copy of a text that may be missing.
fn copy_opt(s: &Option<String>) -> (out: Option<String>)
    ensures
        opt_text(out) == opt_text(*s),
{
    match s {
        Some(t) => Some(copy_of(t.as_str())),
        None => None,
    }
}

/// The note beside a bundle that was just exported. The engine is the one that
/// the project names, or else the one that this is.
pub fn note_of(s: &Shipment, sha256: &str, size: u64, engine: &Option<String>, this_engine: &str) -> (out:
    Pending)
    ensures
        made_from(out, *s),
        out.sha256@ == sha256@,
        out.size == size,
        out.engine@ == match *engine {
            Some(e) => e@,
            None => this_engine@,
        },
{
    let engine: String = match engine {
        Some(e) => copy_of(e.as_str()),
        None => copy_of(this_engine),
    };
    Pending {
        project: copy_of(s.project.as_str()),
        scene: copy_opt(&s.scene),
        label: copy_opt(&s.label),
        project_stamp: s.project_stamp,
        sha256: copy_of(sha256),
        size,
        engine,
    }
}

/// A run that was cut off is carried on by the next one of the same project, as
/// long as the bundle lies there whole and the project stays as it was.
pub proof fn law_a_second_run_carries_on(p: Pending, first: Shipment, second: Shipment)
    requires
        made_from(p, first),
        second.project@ == first.project@,
        opt_text(second.scene) == opt_text(first.scene),
        opt_text(second.label) == opt_text(first.label),
        second.project_stamp == first.project_stamp,
        !second.fresh,
    ensures
        carries_on_with(Some(p), second, Some(p.size)),
{
}

/// Once the project has changed, and where a new bundle is asked for, the old
/// one is never sent.
pub proof fn law_a_stale_bundle_is_never_sent(p: Pending, s: Shipment, there: Option<u64>)
    requires
        s.fresh || p.project_stamp != s.project_stamp,
    ensures
        !carries_on_with(Some(p), s, there),
{
}

/// The file of a game's bundle.
pub fn bundle_name(game: &str) -> (out: String)
    ensures
        out@ == game@ + "-server.tar.gz"@,
{
    joined(game, "-server.tar.gz")
}

/// The file of the note beside a bundle.
pub fn note_name() -> (out: &'static str)
    ensures
        out@ == "ship.json"@,
{
    "ship.json"
}

/// The name of the place where a game's bundle waits. `mark` stands for the
/// project: the same project has the same one.
pub open spec fn place_name(game: Seq<char>, mark: u64) -> Seq<char> {
    game + "-"@ + hex_form(mark as nat, 16)
}

/// Where a game's bundle waits between runs: below the place for passing things,
/// `temp`, and not in the project, which cannot be exported into itself.
pub fn cache_dir(temp: &str, game: &str, mark: u64) -> (out: String)
    ensures
        out@ == path_below(path_below(temp@, "floptle-ship"@), place_name(game@, mark)),
{
    let digits: String = text_of(hex_of(mark, 16).as_slice());
    let name: String = joined(joined(game, "-").as_str(), digits.as_str());
    join_path(join_path(temp, "floptle-ship").as_str(), name.as_str())
}

/// The bundles of one game wait apart for each project.
pub proof fn law_projects_wait_apart(game: Seq<char>, mark: u64, other: u64)
    requires
        mark != other,
    ensures
        place_name(game, mark) != place_name(game, other),
{
    let front = game + "-"@;
    if place_name(game, mark) == place_name(game, other) {
        assert(place_name(game, mark).skip(front.len() as int) =~= hex_form(mark as nat, 16));
        assert(place_name(game, other).skip(front.len() as int) =~= hex_form(other as nat, 16));
        lemma_sixteen_digits_suffice();
        lemma_hex_is_one_to_one(mark as nat, other as nat, 16);
    }
}

/// What a project says of the cloud.
pub struct CloudSettings {
    pub game: String,
    /// Does it hold what a connection needs?
    pub connected: bool,
}

/// The game that a project is connected to.
pub open spec fn game_of(cloud: Option<CloudSettings>) -> Option<Seq<char>> {
    match cloud {
        Some(c) => if c.connected && trim(c.game@).len() > 0 {
            Some(c.game@)
        } else {
            None
        },
        None => None,
    }
}

/// The game that a project is connected to: it has to have a name that is more
/// than blanks.
pub fn connected_game(cloud: &Option<CloudSettings>) -> (out: Option<String>)
    ensures
        opt_text(out) == game_of(*cloud),
{
    match cloud {
        Some(c) => {
            let name: Vec<char> = chars_of(c.game.as_str());
            if c.connected && trimmed(name.as_slice()).len() > 0 {
                Some(copy_of(c.game.as_str()))
            } else {
                None
            }
        },
        None => None,
    }
}

/// A run carries on exactly with a whole bundle of the same project, scene and label in the
/// same state, and only where no new one is asked for.
pub proof fn law_a_bundle_of_anything_else_is_not_sent(p: Pending, s: Shipment, there: Option<u64>)
    ensures
        carries_on_with(Some(p), s, there) <==> !s.fresh && p.project@ == s.project@ && opt_text(
            p.scene,
        ) == opt_text(s.scene) && opt_text(p.label) == opt_text(s.label) && p.project_stamp
            == s.project_stamp && there == Some(p.size),
        !carries_on_with(None, s, there),
        there is None ==> !carries_on_with(Some(p), s, there),
{
}

/// A project is connected to the game that it names, exactly where it is connected and the
/// name is more than blanks.
pub proof fn law_a_project_is_connected_to_the_game_it_names(c: CloudSettings)
    ensures
        game_of(None) is None,
        game_of(Some(c)) is Some <==> c.connected && trim(c.game@).len() > 0,
        game_of(Some(c)) matches Some(g) ==> g == c.game@,
{
}

// ---- how it ends -----------------------------------------------------------

/// Why a build was not shipped.
pub enum ShipFailure {
    NotAProject { path: String },
    NotConnected,
    NobodySignedIn,
    /// There is no place for the bundle.
    NoPlace { dir: String, why: String },
    Export { why: String },
    Upload { why: String },
}

/// The exit code of a run that shipped a build.
pub const SHIPPED: i32 = 0;

impl ShipFailure {
    /// The exit code.
    pub open spec fn code(self) -> i32 {
        match self {
            ShipFailure::NotAProject { .. } => 2i32,
            ShipFailure::NotConnected | ShipFailure::NobodySignedIn => 3i32,
            _ => 1i32,
        }
    }

    /// What is said.
    pub open spec fn said(self) -> Seq<char> {
        match self {
            ShipFailure::NotAProject { path } => path@ + " is not a project directory"@,
            ShipFailure::NotConnected =>
            "this project is not connected to a game on Floptle Cloud; connect it in ⚙ Settings ▸ Networked (it names the game this bundle belongs to)"@,
            ShipFailure::NobodySignedIn =>
            "nobody is signed in: sign in to Floptle in the Hub (or the editor) and run this again"@,
            ShipFailure::NoPlace { dir, why } => "make "@ + dir@ + ": "@ + why@,
            ShipFailure::Export { why } => why@,
            ShipFailure::Upload { why } => why@
                + "\n  the bundle is kept, so running the same command again carries on"@,
        }
    }

    /// The exit code: 1 where the export or the upload failed, 2 where this is
    /// no project, 3 where it is not connected or nobody is signed in.
    pub fn exit_code(&self) -> (out: i32)
        ensures
            out == self.code(),
    {
        match self {
            ShipFailure::NotAProject { .. } => 2,
            ShipFailure::NotConnected => 3,
            ShipFailure::NobodySignedIn => 3,
            ShipFailure::NoPlace { .. } => 1,
            ShipFailure::Export { .. } => 1,
            ShipFailure::Upload { .. } => 1,
        }
    }

    /// What is said.
    pub fn message(&self) -> (out: String)
        ensures
            out@ == self.said(),
    {
        match self {
            ShipFailure::NotAProject { path } => joined(path.as_str(), " is not a project directory"),
            ShipFailure::NotConnected => copy_of(
                "this project is not connected to a game on Floptle Cloud; connect it in ⚙ Settings ▸ Networked (it names the game this bundle belongs to)",
            ),
            ShipFailure::NobodySignedIn => copy_of(
                "nobody is signed in: sign in to Floptle in the Hub (or the editor) and run this again",
            ),
            ShipFailure::NoPlace { dir, why } => joined(
                joined(joined("make ", dir.as_str()).as_str(), ": ").as_str(),
                why.as_str(),
            ),
            ShipFailure::Export { why } => copy_of(why.as_str()),
            ShipFailure::Upload { why } => joined(
                why.as_str(),
                "\n  the bundle is kept, so running the same command again carries on",
            ),
        }
    }

    /// What is said, for a program that reads it.
    pub fn json(&self) -> (out: String)
        ensures
            out@ == json_object_form(
                seq![("ok"@, false)],
                seq![("error"@, Some(self.said()))],
                Seq::<(Seq<char>, u64)>::empty(),
            ),
    {
        let mut flags: Vec<(String, bool)> = Vec::new();
        flags.push((copy_of("ok"), false));
        let mut texts: Vec<(String, Option<String>)> = Vec::new();
        texts.push((copy_of("error"), Some(self.message())));
        let numbers: Vec<(String, u64)> = Vec::new();
        proof {
            assert(flag_fields(flags@) =~= seq![("ok"@, false)]);
            assert(text_fields(texts@) =~= seq![("error"@, Some(self.said()))]);
            assert(number_fields(numbers@) =~= Seq::<(Seq<char>, u64)>::empty());
        }
        json_object(&flags, &texts, &numbers)
    }
}

/// Every run that ships nothing ends with a code of its own kind, and none of
/// them with the code of success.
pub proof fn law_a_failure_is_never_success(f: ShipFailure)
    ensures
        1 <= f.code() <= 3,
        f.code() != SHIPPED,
        f.code() == 2 <==> f is NotAProject,
        f.code() == 3 <==> f is NotConnected || f is NobodySignedIn,
{
}

/// What is said of a build that was shipped, for a program that reads it.
pub fn shipped_json(build: &str, game: &str, p: &Pending) -> (out: String)
    ensures
        out@ == json_object_form(
            seq![("ok"@, true)],
            seq![
                ("build"@, Some(build@)),
                ("game"@, Some(game@)),
                ("sha256"@, Some(p.sha256@)),
                ("engine"@, Some(p.engine@)),
            ],
            seq![("bytes"@, p.size)],
        ),
{
    let mut flags: Vec<(String, bool)> = Vec::new();
    flags.push((copy_of("ok"), true));
    let mut texts: Vec<(String, Option<String>)> = Vec::new();
    texts.push((copy_of("build"), Some(copy_of(build))));
    texts.push((copy_of("game"), Some(copy_of(game))));
    texts.push((copy_of("sha256"), Some(copy_of(p.sha256.as_str()))));
    texts.push((copy_of("engine"), Some(copy_of(p.engine.as_str()))));
    let mut numbers: Vec<(String, u64)> = Vec::new();
    numbers.push((copy_of("bytes"), p.size));
    proof {
        assert(flag_fields(flags@) =~= seq![("ok"@, true)]);
        assert(text_fields(texts@) =~= seq![
            ("build"@, Some(build@)),
            ("game"@, Some(game@)),
            ("sha256"@, Some(p.sha256@)),
            ("engine"@, Some(p.engine@)),
        ]);
        assert(number_fields(numbers@) =~= seq![("bytes"@, p.size)]);
    }
    json_object(&flags, &texts, &numbers)
}

/// What is said of a build that was shipped. `megabytes` is the size of its
/// bundle, written out.
pub fn shipped_text(build: &str, game: &str, megabytes: &str, engine: &str) -> (out: String)
    ensures
        out@ == "shipped build "@ + build@ + " to "@ + game@ + " ("@ + megabytes@ + " MB, engine "@
            + engine@ + "). Deploy it from https://fopull.com/cloud/games/"@ + game@,
{
    let a: String = joined(joined("shipped build ", build).as_str(), " to ");
    let b: String = joined(joined(a.as_str(), game).as_str(), " (");
    let c: String = joined(joined(b.as_str(), megabytes).as_str(), " MB, engine ");
    let d: String = joined(
        joined(c.as_str(), engine).as_str(),
        "). Deploy it from https://fopull.com/cloud/games/",
    );
    joined(d.as_str(), game)
}

/// What is said of a bundle that is carried on with.
pub fn carrying_on_text() -> (out: &'static str)
    ensures
        out@ == "the project has not changed since the last try: carrying on with that bundle"@,
{
    "the project has not changed since the last try: carrying on with that bundle"
}

/// What failed is said with its reason, and what it was about: a failed upload is followed by
/// what to do, and no two kinds of failure without a reason say the same.
pub proof fn law_a_failure_says_its_reason(f: ShipFailure)
    ensures
        f matches ShipFailure::NotAProject { path } ==> has_prefix(f.said(), path@),
        f matches ShipFailure::Export { why } ==> f.said() == why@,
        f matches ShipFailure::Upload { why } ==> has_prefix(f.said(), why@) && f.said().len()
            > why@.len(),
        f matches ShipFailure::NoPlace { dir, why } ==> f.said() == "make "@ + dir@ + ": "@ + why@,
        ShipFailure::NotConnected.said() != ShipFailure::NobodySignedIn.said(),
{
    reveal_strlit("\n  the bundle is kept, so running the same command again carries on");
    reveal_strlit(
        "this project is not connected to a game on Floptle Cloud; connect it in ⚙ Settings ▸ Networked (it names the game this bundle belongs to)",
    );
    reveal_strlit(
        "nobody is signed in: sign in to Floptle in the Hub (or the editor) and run this again",
    );
    if let ShipFailure::NotAProject { path } = f {
        assert(f.said().take(path@.len() as int) =~= path@);
    }
    if let ShipFailure::Upload { why } = f {
        assert(f.said().take(why@.len() as int) =~= why@);
    }
    assert(ShipFailure::NotConnected.said()[0] == 't');
    assert(ShipFailure::NobodySignedIn.said()[0] == 'n');
}

// ---- what is said on the way -----------------------------------------------

/// What an upload tells.
pub enum Progress {
    /// The site has a place for the build, and `already` bytes of it.
    Reserved { build_id: String, already: u64 },
    Sent { sent: u64, total: u64 },
    Completing,
}

/// What is said of it.
pub enum ProgressLine {
    Resuming { build_id: String, already: u64 },
    Uploading { build_id: String },
    Sent { sent: u64, total: u64 },
    CheckingDigest,
}

/// What was said so far.
pub struct Reporter {
    /// Does a program read along? Then nothing is said on the way.
    pub json: bool,
    /// The last tenth that was told of, or the largest number.
    pub last_tenth: u64,
}

/// How many tenths of `total` have been sent.
pub open spec fn tenths(sent: u64, total: u64) -> int {
    (sent * 10) / (if total >= 1 {
        total as int
    } else {
        1
    })
}

/// The tenths are no more than ten times what was sent.
proof fn lemma_tenths_fit(sent: u64, total: u64)
    requires
        sent * 10 <= u64::MAX,
    ensures
        0 <= tenths(sent, total) <= u64::MAX,
{
    let whole: int = if total >= 1 {
        total as int
    } else {
        1
    };
    vstd::arithmetic::div_mod::lemma_div_is_ordered_by_denominator(sent * 10, 1, whole);
    vstd::arithmetic::div_mod::lemma_div_pos_is_pos(sent * 10, whole);
}

/// A reporter that has been told of `p`.
pub open spec fn after_telling(r: Reporter, p: Progress) -> Reporter {
    match p {
        Progress::Sent { sent, total } if !r.json => Reporter {
            last_tenth: tenths(sent, total) as u64,
            ..r
        },
        _ => r,
    }
}

/// Is anything said of `p`?
pub open spec fn is_told(r: Reporter, p: Progress) -> bool {
    !r.json && (p matches Progress::Sent { sent, total } ==> tenths(sent, total) != r.last_tenth)
}

/// Is this what is said of `p`, where anything is?
pub open spec fn says(line: ProgressLine, p: Progress) -> bool {
    match p {
        Progress::Reserved { build_id, already } => if already > 0 {
            line matches ProgressLine::Resuming { build_id: b, already: a } && b@ == build_id@ && a
                == already
        } else {
            line matches ProgressLine::Uploading { build_id: b } && b@ == build_id@
        },
        Progress::Sent { sent, total } => line == (ProgressLine::Sent { sent, total }),
        Progress::Completing => line is CheckingDigest,
    }
}

impl Reporter {
    /// Nothing was said yet.
    pub fn new(json: bool) -> (out: Self)
        ensures
            out.json == json,
            out.last_tenth == u64::MAX,
    {
        Reporter { json, last_tenth: u64::MAX }
    }

    /// What is said of `p`: a line per tenth of the bundle, not per piece of it.
    pub fn tell(&mut self, p: &Progress) -> (out: Option<ProgressLine>)
        requires
            *p matches Progress::Sent { sent, .. } ==> sent * 10 <= u64::MAX,
        ensures
            *final(self) == after_telling(*old(self), *p),
            out is Some <==> is_told(*old(self), *p),
            out matches Some(line) ==> says(line, *p),
    {
        if self.json {
            return None;
        }
        match p {
            Progress::Reserved { build_id, already } => {
                if *already > 0 {
                    Some(
                        ProgressLine::Resuming {
                            build_id: copy_of(build_id.as_str()),
                            already: *already,
                        },
                    )
                } else {
                    Some(ProgressLine::Uploading { build_id: copy_of(build_id.as_str()) })
                }
            },
            Progress::Sent { sent, total } => {
                let whole: u64 = if *total >= 1 {
                    *total
                } else {
                    1
                };
                let tenth: u64 = (*sent * 10) / whole;
                if tenth != self.last_tenth {
                    self.last_tenth = tenth;
                    Some(ProgressLine::Sent { sent: *sent, total: *total })
                } else {
                    None
                }
            },
            Progress::Completing => Some(ProgressLine::CheckingDigest),
        }
    }
}

/// What is said of a build that the site holds a part of.
pub fn resuming_text(build_id: &str, megabytes: &str) -> (out: String)
    ensures
        out@ == "build "@ + build_id@ + ": "@ + megabytes@
            + " MB already on fopull.com, sending the rest"@,
{
    let a: String = joined(joined("build ", build_id).as_str(), ": ");
    joined(joined(a.as_str(), megabytes).as_str(), " MB already on fopull.com, sending the rest")
}

/// What is said of a build that starts from nothing.
pub fn uploading_text(build_id: &str, megabytes: &str) -> (out: String)
    ensures
        out@ == "build "@ + build_id@ + ": uploading "@ + megabytes@ + " MB"@,
{
    let a: String = joined(joined("build ", build_id).as_str(), ": uploading ");
    joined(joined(a.as_str(), megabytes).as_str(), " MB")
}

/// What is said of a piece that was sent.
pub fn sent_text(megabytes: &str, of: &str) -> (out: String)
    ensures
        out@ == "  "@ + megabytes@ + " / "@ + of@ + " MB"@,
{
    let a: String = joined(joined("  ", megabytes).as_str(), " / ");
    joined(joined(a.as_str(), of).as_str(), " MB")
}

/// What is said once all is sent.
pub fn checking_text() -> (out: &'static str)
    ensures
        out@ == "checking the digest…"@,
{
    "checking the digest…"
}

/// Two pieces that end in the same tenth make one line.
pub proof fn law_one_line_per_tenth(r: Reporter, first: Progress, second: Progress)
    requires
        !r.json,
        first is Sent,
        second is Sent,
        first->Sent_sent * 10 <= u64::MAX,
        tenths(first->Sent_sent, first->Sent_total) == tenths(
            second->Sent_sent,
            second->Sent_total,
        ),
    ensures
        !is_told(after_telling(r, first), second),
{
    lemma_tenths_fit(first->Sent_sent, first->Sent_total);
}

/// The first piece is always told of, and a program that reads along is told of
/// none.
pub proof fn law_the_first_piece_is_told(r: Reporter, p: Progress)
    requires
        r.last_tenth == u64::MAX,
        p is Sent,
        p->Sent_sent * 10 < u64::MAX,
    ensures
        is_told(r, p) == !r.json,
{
    let whole: int = if p->Sent_total >= 1 {
        p->Sent_total as int
    } else {
        1
    };
    vstd::arithmetic::div_mod::lemma_div_is_ordered_by_denominator(
        p->Sent_sent * 10,
        1,
        whole,
    );
}

/// The tenths say how much of the bundle was sent: none at the start, ten at the end, and in
/// between no more than was sent and less than one too few.
pub proof fn law_tenths_say_how_much_was_sent(sent: u64, total: u64)
    requires
        total >= 1,
        sent <= total,
    ensures
        0 <= tenths(sent, total) <= 10,
        tenths(0, total) == 0,
        tenths(total, total) == 10,
        tenths(sent, total) * total <= sent * 10 < (tenths(sent, total) + 1) * total,
{
    let a = sent * 10;
    let t = total as int;
    let q = a / t;
    vstd::arithmetic::div_mod::lemma_fundamental_div_mod(a, t);
    vstd::arithmetic::div_mod::lemma_mod_bound(a, t);
    assert(q * t <= a < (q + 1) * t) by (nonlinear_arith)
        requires
            a == t * q + a % t,
            0 <= a % t < t,
    ;
    assert(0 <= q <= 10) by (nonlinear_arith)
        requires
            q * t <= a,
            a < (q + 1) * t,
            0 <= a <= 10 * t,
            t >= 1,
    ;
    vstd::arithmetic::div_mod::lemma_div_multiples_vanish(10, t);
    assert(t * 10 == total * 10);
    vstd::arithmetic::div_mod::lemma_basic_div(0, t);
}

/// A program that reads along is told nothing on the way. Anyone else is told of the place and
/// of the end each time, and of a piece where it ends another tenth; only that is remembered.
pub proof fn law_a_program_is_told_nothing(r: Reporter, p: Progress)
    ensures
        r.json ==> !is_told(r, p) && after_telling(r, p) == r,
        !r.json && !(p is Sent) ==> is_told(r, p) && after_telling(r, p) == r,
        !r.json ==> (p matches Progress::Sent { sent, total } ==> (is_told(r, p) <==> tenths(
            sent,
            total,
        ) != r.last_tenth)),
        after_telling(r, p).json == r.json,
{
}

/// A build of which the site holds a part is told of as one that is carried on, with that
/// part; any other as one that starts from nothing. A piece is told of with its own numbers.
pub proof fn law_what_is_told_is_what_happened(line: ProgressLine, p: Progress)
    requires
        says(line, p),
    ensures
        line is Resuming <==> (p matches Progress::Reserved { already, .. } && already > 0),
        line is Uploading <==> (p matches Progress::Reserved { already, .. } && already == 0),
        line is Sent <==> p is Sent,
        line is CheckingDigest <==> p is Completing,
        line matches ProgressLine::Resuming { build_id, already } ==> build_id@
            == p->Reserved_build_id@ && already == p->Reserved_already,
        line matches ProgressLine::Uploading { build_id } ==> build_id@ == p->Reserved_build_id@,
        line matches ProgressLine::Sent { sent, total } ==> p == (Progress::Sent { sent, total }),
{
}

// ---- shipping from the editor ----------------------------------------------

/// How starting the shipping ended.
pub enum ShipStart {
    /// This program was not found.
    NoProgram(String),
    /// It could not be started.
    NotStarted(String),
    Started,
}

/// What starting the shipping comes to: what to put on the console, and whether
/// a build is being shipped from now on. `None` where one is being shipped
/// already: it is left alone, and no second one starts.
pub fn start_ship(running: bool, start: &ShipStart) -> (out: Option<(LogLine, bool)>)
    ensures
        out is None <==> running,
        out matches Some(o) ==> match *start {
            ShipStart::NoProgram(why) => o.0.level == LogLevel::Error && o.0.text@
                == "⬆ ship: cannot find this program: "@ + why@ && !o.1,
            ShipStart::NotStarted(why) => o.0.level == LogLevel::Error && o.0.text@
                == "⬆ ship: could not start: "@ + why@ && !o.1,
            ShipStart::Started => o.0.level == LogLevel::Debug && o.0.text@
                == "⬆ shipping a server build to Floptle Cloud…"@ && o.1,
        },
{
    if running {
        return None;
    }
    match start {
        ShipStart::NoProgram(why) => {
            let text: String = joined("⬆ ship: cannot find this program: ", why.as_str());
            Some((LogLine { level: LogLevel::Error, text }, false))
        },
        ShipStart::NotStarted(why) => {
            let text: String = joined("⬆ ship: could not start: ", why.as_str());
            Some((LogLine { level: LogLevel::Error, text }, false))
        },
        ShipStart::Started => {
            let text: String = copy_of("⬆ shipping a server build to Floptle Cloud…");
            Some((LogLine { level: LogLevel::Debug, text }, true))
        },
    }
}

/// The lines that a running job wrote, for the console: what it wrote to its
/// error output is an error.
pub open spec fn job_lines(lines: Seq<(bool, String)>) -> Seq<(LogLevel, Seq<char>)> {
    lines.map_values(
        |l: (bool, String)|
            (
                if l.0 {
                    LogLevel::Error
                } else {
                    LogLevel::Debug
                },
                "⬆ "@ + l.1@,
            ),
    )
}

/// Puts the lines of a job behind those that are there.
fn append_job_lines(out: &mut Vec<LogLine>, lines: &Vec<(bool, String)>)
    ensures
        line_models(final(out)@) == line_models(old(out)@) + job_lines(lines@),
{
    let ghost was = line_models(out@);
    let mut i: usize = 0;
    assert(was + job_lines(lines@).take(0) =~= was);
    while i < lines.len()
        invariant
            i <= lines.len(),
            line_models(out@) == was + job_lines(lines@).take(i as int),
        decreases lines.len() - i,
    {
        let level: LogLevel = if lines[i].0 {
            LogLevel::Error
        } else {
            LogLevel::Debug
        };
        let text: String = joined("⬆ ", lines[i].1.as_str());
        let ghost before = out@;
        out.push(LogLine { level, text });
        proof {
            let all = job_lines(lines@);
            assert(line_models(out@) =~= line_models(before).push(all[i as int]));
            assert(all.take(i + 1) =~= all.take(i as int).push(all[i as int]));
            assert(was + all.take(i + 1) =~= (was + all.take(i as int)).push(all[i as int]));
        }
        i += 1;
    }
    assert(job_lines(lines@).take(i as int) =~= job_lines(lines@));
}

/// What a look at the running job comes to.
pub struct ShipPoll {
    /// What to put on the console.
    pub lines: Vec<LogLine>,
    /// Has the job ended?
    pub over: bool,
}

/// What a look at the job comes to. `lines` are its new lines, `status` says
/// whether it has ended (and whether well), and `rest` are the lines that were
/// still on their way when it ended: they come before what is said of the end.
pub fn poll_ship(
    lines: &Vec<(bool, String)>,
    status: &Result<Option<bool>, String>,
    rest: &Vec<(bool, String)>,
) -> (out: ShipPoll)
    ensures
        out.over == !(*status matches Ok(None)),
        line_models(out.lines@) == match *status {
            Ok(None) => job_lines(lines@),
            Ok(Some(true)) => job_lines(lines@) + job_lines(rest@),
            Ok(Some(false)) => (job_lines(lines@) + job_lines(rest@)).push(
                (
                    LogLevel::Warn,
                    "⬆ the server build was not shipped; the lines above say why"@,
                ),
            ),
            Err(why) => job_lines(lines@).push((LogLevel::Error, "⬆ ship: "@ + why@)),
        },
{
    let mut out: Vec<LogLine> = Vec::new();
    assert(line_models(out@) + job_lines(lines@) =~= job_lines(lines@));
    append_job_lines(&mut out, lines);
    match status {
        Ok(None) => ShipPoll { lines: out, over: false },
        Ok(Some(well)) => {
            append_job_lines(&mut out, rest);
            if !*well {
                let ghost before = out@;
                out.push(
                    LogLine {
                        level: LogLevel::Warn,
                        text: copy_of("⬆ the server build was not shipped; the lines above say why"),
                    },
                );
                assert(line_models(out@) =~= line_models(before).push(
                    (
                        LogLevel::Warn,
                        "⬆ the server build was not shipped; the lines above say why"@,
                    ),
                ));
            }
            ShipPoll { lines: out, over: true }
        },
        Err(why) => {
            let ghost before = out@;
            out.push(
                LogLine { level: LogLevel::Error, text: joined("⬆ ship: ", why.as_str()) },
            );
            assert(line_models(out@) =~= line_models(before).push(
                (LogLevel::Error, "⬆ ship: "@ + why@),
            ));
            ShipPoll { lines: out, over: true }
        },
    }
}

/// No second build is shipped while one is; a start that failed is an error and ships nothing.
pub proof fn law_one_build_is_shipped_at_a_time(
    running: bool,
    start: ShipStart,
    out: Option<(LogLine, bool)>,
)
    requires
        call_ensures(start_ship, (running, &start), out),
    ensures
        out is None <==> running,
        out matches Some(o) ==> (o.1 <==> start is Started) && (o.0.level is Error <==> !(
        start is Started)),
{
}

/// Every line of a job is put on the console, in order, and as an error exactly where it was
/// written as one.
pub proof fn law_every_line_of_a_job_is_told(lines: Seq<(bool, String)>, i: int)
    requires
        0 <= i < lines.len(),
    ensures
        job_lines(lines).len() == lines.len(),
        job_lines(lines)[i].0 is Error <==> lines[i].0,
        job_lines(lines)[i].0 is Debug <==> !lines[i].0,
        job_lines(lines)[i].1 == "⬆ "@ + lines[i].1@,
{
}

/// A job is over once it has ended, well or not, or can no longer be looked at. What it wrote
/// comes first, and what is said of a bad end last.
pub proof fn law_a_job_is_over_once_it_has_ended(
    lines: Vec<(bool, String)>,
    status: Result<Option<bool>, String>,
    rest: Vec<(bool, String)>,
    out: ShipPoll,
)
    requires
        call_ensures(poll_ship, (&lines, &status, &rest), out),
    ensures
        out.over <==> !(status matches Ok(None)),
        job_lines(lines@).is_prefix_of(line_models(out.lines@)),
        status matches Ok(Some(well)) ==> (job_lines(lines@) + job_lines(rest@)).is_prefix_of(
            line_models(out.lines@),
        ) && (well <==> line_models(out.lines@).len() == lines@.len() + rest@.len()),
        status is Err ==> line_models(out.lines@).last().0 is Error,
{
    if let Ok(Some(well)) = status {
        let all = job_lines(lines@) + job_lines(rest@);
        assert(job_lines(lines@).is_prefix_of(all));
        assert(all.len() == lines@.len() + rest@.len());
    }
}

/// What is said of a build names it, and tells how much of it there is.
pub proof fn law_what_is_said_of_a_build_names_it(
    build: &str,
    size: &str,
    game: &str,
    engine: &str,
    shipped: String,
    resuming: String,
    uploading: String,
    sent: String,
    bundle: String,
)
    requires
        call_ensures(shipped_text, (build, game, size, engine), shipped),
        call_ensures(resuming_text, (build, size), resuming),
        call_ensures(uploading_text, (build, size), uploading),
        call_ensures(sent_text, (build, size), sent),
        call_ensures(bundle_name, (game,), bundle),
    ensures
        ("shipped build "@ + build@ + " to "@ + game@ + " ("@ + size@).is_prefix_of(shipped@),
        ("build "@ + build@ + ": "@ + size@).is_prefix_of(resuming@),
        ("build "@ + build@ + ": "@).is_prefix_of(uploading@),
        (size@ + " MB"@).is_suffix_of(uploading@),
        ("  "@ + build@ + " / "@ + size@).is_prefix_of(sent@),
        game@.is_prefix_of(bundle@),
{
    reveal_strlit(": ");
    reveal_strlit(": uploading ");
    let a = "shipped build "@ + build@ + " to "@ + game@ + " ("@ + size@;
    assert(shipped@.subrange(0, a.len() as int) =~= a);
    let b = "build "@ + build@ + ": "@ + size@;
    assert(resuming@.subrange(0, b.len() as int) =~= b);
    let c = "build "@ + build@ + ": "@;
    assert(uploading@.subrange(0, c.len() as int) =~= c);
    let d = size@ + " MB"@;
    assert(uploading@.subrange(uploading@.len() - d.len(), uploading@.len() as int) =~= d);
    let e = "  "@ + build@ + " / "@ + size@;
    assert(sent@.subrange(0, e.len() as int) =~= e);
    assert(bundle@.subrange(0, game@.len() as int) =~= game@);
}

/// A note holds what was made and from what; where it is not known which engine made it, it was
/// this one.
pub proof fn law_a_note_holds_what_was_made(
    s: &Shipment,
    sha256: &str,
    size: u64,
    engine: &Option<String>,
    this_engine: &str,
    out: Pending,
)
    requires
        call_ensures(note_of, (s, sha256, size, engine, this_engine), out),
    ensures
        made_from(out, *s),
        out.sha256@ == sha256@ && out.size == size,
        *engine matches Some(e) ==> out.engine@ == e@,
        *engine is None ==> out.engine@ == this_engine@,
{
}

} // verus!
