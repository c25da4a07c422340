//! The files beside the settings: what was there before, and what is being
//! written.

use vstd::prelude::*;
use crate::paths;
use crate::paths::with_name_suffix;
use crate::text;

verus! {

/// What came of writing the settings.
#[derive(Debug)]
pub struct WriteResult {
    /// Where the file that was there before was copied to.
    pub backed_up: Option<String>,
    /// The file that was written.
    pub written: String,
}

/// The copy of a file that is about to be overwritten.
pub fn backup_path(path: &str) -> (r: String)
    ensures
        r@ == paths::suffixed_of(path@, ".bak"@),
{
    with_name_suffix(path, ".bak")
}

/// The file that the new content is written to before it takes its place.
pub fn tmp_path(path: &str) -> (r: String)
    ensures
        r@ == paths::suffixed_of(path@, ".tmp"@),
{
    with_name_suffix(path, ".tmp")
}

/// One thing to do on disk.
#[derive(Debug)]
pub enum Step {
    Copy { from: String, to: String },
    Write { path: String },
    Rename { from: String, to: String },
}

/// The value of one thing to do.
pub enum StepView {
    Copy { from: Seq<char>, to: Seq<char> },
    Write { path: Seq<char> },
    Rename { from: Seq<char>, to: Seq<char> },
}

impl View for Step {
    type V = StepView;

    open spec fn view(&self) -> StepView {
        match self {
            Step::Copy { from, to } => StepView::Copy { from: from@, to: to@ },
            Step::Write { path } => StepView::Write { path: path@ },
            Step::Rename { from, to } => StepView::Rename { from: from@, to: to@ },
        }
    }
}

/// What is done to write `path`, in order: an existing file is copied, the new
/// content goes to a file of its own and takes the place of the old in one step.
pub open spec fn write_steps(path: Seq<char>, exists: bool) -> Seq<StepView> {
    let tmp = paths::suffixed_of(path, ".tmp"@);
    let write = seq![StepView::Write { path: tmp }, StepView::Rename { from: tmp, to: path }];
    if exists {
        seq![StepView::Copy { from: path, to: paths::suffixed_of(path, ".bak"@) }] + write
    } else {
        write
    }
}

/// The values of some things to do.
pub open spec fn step_views(v: Seq<Step>) -> Seq<StepView> {
    Seq::new(v.len(), |i: int| v[i]@)
}

/// What is done to write `path`, and what is then reported.
pub fn write_with_backup(path: &str, exists: bool) -> (r: (Vec<Step>, WriteResult))
    ensures
        step_views(r.0@) == write_steps(path@, exists),
        r.1.written@ == path@,
        text::opt_view(r.1.backed_up) == (if exists {
            Some(paths::suffixed_of(path@, ".bak"@))
        } else {
            None
        }),
{
    let mut steps: Vec<Step> = Vec::new();
    let mut backed_up: Option<String> = None;
    if exists {
        steps.push(Step::Copy { from: path.to_owned(), to: backup_path(path) });
        backed_up = Some(backup_path(path));
    }
    steps.push(Step::Write { path: tmp_path(path) });
    steps.push(Step::Rename { from: tmp_path(path), to: path.to_owned() });
    proof {
        assert(step_views(steps@) =~= write_steps(path@, exists));
    }
    (steps, WriteResult { backed_up, written: path.to_owned() })
}

/// Whatever fails on the way, the settings are the old ones or the new ones: the
/// file itself is touched by the last step alone, which replaces it whole.
pub proof fn law_only_the_last_step_touches_the_file(path: Seq<char>, exists: bool, i: int)
    requires
        0 <= i < write_steps(path, exists).len() - 1,
    ensures
        match write_steps(path, exists)[i] {
            StepView::Copy { from, to } => to != path,
            StepView::Write { path: p } => p != path,
            StepView::Rename { .. } => false,
        },
        write_steps(path, exists).last() == (StepView::Rename {
            from: paths::suffixed_of(path, ".tmp"@),
            to: path,
        }),
{
    reveal_strlit(".bak");
    reveal_strlit(".tmp");
    paths::lemma_suffixed_differs(path, ".bak"@);
    paths::lemma_suffixed_differs(path, ".tmp"@);
}

/// The files on disk, by their paths, after one step that writes `content`.
pub open spec fn disk_after(
    disk: Map<Seq<char>, Seq<char>>,
    step: StepView,
    content: Seq<char>,
) -> Map<Seq<char>, Seq<char>> {
    match step {
        StepView::Copy { from, to } => disk.insert(to, disk[from]),
        StepView::Write { path } => disk.insert(path, content),
        StepView::Rename { from, to } => disk.remove(from).insert(to, disk[from]),
    }
}

/// The files on disk after some steps.
pub open spec fn disk_after_all(
    disk: Map<Seq<char>, Seq<char>>,
    steps: Seq<StepView>,
    content: Seq<char>,
) -> Map<Seq<char>, Seq<char>>
    decreases steps.len(),
{
    if steps.len() == 0 {
        disk
    } else {
        disk_after(disk_after_all(disk, steps.drop_last(), content), steps.last(), content)
    }
}

/// Once all is done the file holds the new content, what it held before stands in the
/// copy beside it, nothing is left of the file in between, and no other file has
/// changed; where there was no file, no copy is made.
pub proof fn law_old_settings_are_kept(
    disk: Map<Seq<char>, Seq<char>>,
    path: Seq<char>,
    content: Seq<char>,
    other: Seq<char>,
)
    ensures
        ({
            let exists = disk.dom().contains(path);
            let bak = paths::suffixed_of(path, ".bak"@);
            let tmp = paths::suffixed_of(path, ".tmp"@);
            let after = disk_after_all(disk, write_steps(path, exists), content);
            &&& after.dom().contains(path) && after[path] == content
            &&& exists ==> after.dom().contains(bak) && after[bak] == disk[path]
            &&& !exists ==> after.dom().contains(bak) == disk.dom().contains(bak)
            &&& !after.dom().contains(tmp)
            &&& other != path && other != bak && other != tmp ==> after.dom().contains(other)
                == disk.dom().contains(other) && (disk.dom().contains(other) ==> after[other] == disk[other])
        }),
{
    let exists = disk.dom().contains(path);
    let bak = paths::suffixed_of(path, ".bak"@);
    let tmp = paths::suffixed_of(path, ".tmp"@);
    reveal_strlit(".bak");
    reveal_strlit(".tmp");
    paths::lemma_suffixed_differs(path, ".bak"@);
    paths::lemma_suffixed_differs(path, ".tmp"@);
    assert(bak.last() == 'k');
    assert(tmp.last() == 'p');
    let write = StepView::Write { path: tmp };
    let rename = StepView::Rename { from: tmp, to: path };
    let copy = StepView::Copy { from: path, to: bak };
    let none = Seq::<StepView>::empty();
    let steps = write_steps(path, exists);
    let head = steps.drop_last();
    assert(steps.last() == rename);
    assert(head.last() == write);
    assert(disk_after_all(disk, none, content) == disk);
    let first = if exists {
        assert(head.drop_last() =~= seq![copy]);
        assert(seq![copy].drop_last() =~= none);
        assert(seq![copy].last() == copy);
        disk_after(disk, copy, content)
    } else {
        assert(head.drop_last() =~= none);
        disk
    };
    assert(disk_after_all(disk, head.drop_last(), content) == first);
    assert(disk_after_all(disk, head, content) == disk_after(first, write, content));
    assert(disk_after_all(disk, steps, content) == disk_after(disk_after(first, write, content), rename, content));
}

} // verus!
