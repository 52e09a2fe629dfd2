//! Staging: turn each resolved entry path and its transform flags into the
//! concrete actions — plain copies and archive builds — whose artifacts fill
//! the scratch directory, skipping unresolved entries without aborting the
//! batch.

use vstd::prelude::*;

verus! {

use vstd::string::StringExecFns;
use crate::paths::{FileOption, FileOptionError, IncludeError, IncludePath};
use crate::resolve::lemma_take_push;
use crate::text::{chars_to_string, str_chars};

/// What a recursive walk found one entry of a directory to be.
#[derive(Clone, Copy, Debug, PartialEq, Eq)]
pub enum EntryKind {
    File,
    Dir,
    Symlink,
}

/// One entry of a walked directory: its path relative to the walked root, its
/// full path, and what kind of entry it is.
#[derive(Clone, Debug)]
pub struct WalkEntry {
    pub rel_path: String,
    pub full_path: String,
    pub kind: EntryKind,
}

/// One item of a planned archive: the entry name inside the archive and, for
/// file items, the source path whose bytes it holds; `None` marks a directory
/// item.
#[derive(Clone, Debug)]
pub struct ArchiveItem {
    pub name: String,
    pub source: Option<String>,
}

/// One staging action: copy a file into the scratch directory under a target
/// name, or build one archive there from the given items.
#[derive(Clone, Debug)]
pub enum StageAction {
    CopyFile { source: String, target_name: String },
    BuildArchive { target_name: String, items: Vec<ArchiveItem> },
}

/// A staging action at the specification level, over character sequences.
#[verifier::ext_equal]
pub enum ActionView {
    CopyFile { source: Seq<char>, target_name: Seq<char> },
    BuildArchive { target_name: Seq<char>, items: Seq<(Seq<char>, Option<Seq<char>>)> },
}

/// The (name, source) pair of an archive item.
pub open spec fn item_view(i: ArchiveItem) -> (Seq<char>, Option<Seq<char>>) {
    (
        i.name@,
        match i.source {
            Some(s) => Some(s@),
            None => None,
        },
    )
}

/// The specification-level view of one staging action.
pub open spec fn action_view(a: StageAction) -> ActionView {
    match a {
        StageAction::CopyFile { source, target_name } => ActionView::CopyFile {
            source: source@,
            target_name: target_name@,
        },
        StageAction::BuildArchive { target_name, items } => ActionView::BuildArchive {
            target_name: target_name@,
            items: items@.map_values(|i: ArchiveItem| item_view(i)),
        },
    }
}

/// The specification-level view of a list of staging actions.
pub open spec fn actions_view(v: Seq<StageAction>) -> Seq<ActionView> {
    v.map_values(|a: StageAction| action_view(a))
}

/// The base name of a path string: the characters after the last separator
/// — `/` or `\\` — or the whole string when it holds none.
pub open spec fn spec_base_name(s: Seq<char>) -> Seq<char>
    decreases s.len(),
{
    if s.len() == 0 {
        Seq::empty()
    } else if s.last() == '/' || s.last() == '\\' {
        Seq::empty()
    } else {
        spec_base_name(s.drop_last()).push(s.last())
    }
}

/// The name of an archive artifact: the base it is named after with a `.zip`
/// suffix appended.
pub open spec fn spec_zip_name(base: Seq<char>) -> Seq<char> {
    base + ".zip"@
}

/// The archive items that a walked directory contributes, in walk order: each
/// directory as a directory item under its relative path, each file as a file
/// item under its relative path with its full path as source, and symbolic
/// links skipped.
pub open spec fn walk_archive_items(l: Seq<WalkEntry>) -> Seq<(Seq<char>, Option<Seq<char>>)>
    decreases l.len(),
{
    if l.len() == 0 {
        Seq::empty()
    } else {
        walk_archive_items(l.drop_last()) + (match l.last().kind {
            EntryKind::Dir => seq![(l.last().rel_path@, None::<Seq<char>>)],
            EntryKind::File => seq![(l.last().rel_path@, Some(l.last().full_path@))],
            EntryKind::Symlink => Seq::empty(),
        })
    }
}

/// The copy actions that a walked directory contributes when not archived:
/// every contained file is copied, flattened under its base name; later
/// copies of a colliding name overwrite earlier ones.
pub open spec fn walk_copy_actions(l: Seq<WalkEntry>) -> Seq<ActionView>
    decreases l.len(),
{
    if l.len() == 0 {
        Seq::empty()
    } else {
        walk_copy_actions(l.drop_last()) + (match l.last().kind {
            EntryKind::File => seq![
                ActionView::CopyFile {
                    source: l.last().full_path@,
                    target_name: spec_base_name(l.last().rel_path@),
                },
            ],
            _ => Seq::<ActionView>::empty(),
        })
    }
}

/// The actions that one resolved entry owes, by its kind and whether the zip
/// flag is set. The walk listing is read only for directories.
pub open spec fn transform_model(
    target: IncludePath,
    has_zip: bool,
    listing: Seq<WalkEntry>,
) -> Seq<ActionView> {
    match target {
        IncludePath::File(p) => {
            let base = spec_base_name(p@);
            if has_zip {
                seq![
                    ActionView::BuildArchive {
                        target_name: spec_zip_name(base),
                        items: seq![(base, Some(p@))],
                    },
                ]
            } else {
                seq![ActionView::CopyFile { source: p@, target_name: base }]
            }
        },
        IncludePath::Dir(p) => {
            let base = spec_base_name(p@);
            if has_zip {
                seq![
                    ActionView::BuildArchive {
                        target_name: spec_zip_name(base),
                        items: walk_archive_items(listing),
                    },
                ]
            } else {
                walk_copy_actions(listing)
            }
        },
    }
}

/// The base name of a path given as characters.
pub fn base_name_chars(s: &Vec<char>) -> (r: Vec<char>)
    ensures
        r@ == spec_base_name(s@),
{
    let mut cur: Vec<char> = Vec::new();
    let mut i: usize = 0;
    while i < s.len()
        invariant
            i <= s.len(),
            cur@ == spec_base_name(s@.take(i as int)),
        decreases s.len() - i,
    {
        proof {
            lemma_take_push(s@, i as int);
            assert(s@.take(i as int).push(s@[i as int]).drop_last() =~= s@.take(i as int));
        }
        if s[i] == '/' || s[i] == '\\' {
            cur = Vec::new();
        } else {
            cur.push(s[i]);
        }
        i += 1;
    }
    proof {
        assert(s@.take(s@.len() as int) =~= s@);
    }
    cur
}

/// The base name of a path string.
pub fn base_name(s: &String) -> (r: String)
    ensures
        r@ == spec_base_name(s@),
{
    let chars = str_chars(s.as_str());
    let base = base_name_chars(&chars);
    chars_to_string(&base)
}

/// Whether a flag list sets the zip transform.
pub open spec fn spec_has_zip(opts: Seq<String>) -> bool
    decreases opts.len(),
{
    if opts.len() == 0 {
        false
    } else {
        spec_has_zip(opts.drop_last()) || opts.last()@ == "zip"@
    }
}

/// The per-flag errors that a flag list owes: one for each unrecognized flag
/// occurrence, in order — a repeated bad flag is reported once per repeat —
/// and bad flags never invalidate sibling flags or the entry itself.
pub open spec fn flag_issues_model(opts: Seq<String>) -> Seq<FileOptionError>
    decreases opts.len(),
{
    if opts.len() == 0 {
        Seq::empty()
    } else {
        flag_issues_model(opts.drop_last()) + (if opts.last()@ == "zip"@ {
            Seq::<FileOptionError>::empty()
        } else {
            seq![FileOptionError::Unexpected(opts.last())]
        })
    }
}

/// Parse a flag list: report whether the zip transform is set, and collect an
/// error per unrecognized flag.
pub fn parse_options(opts: &Vec<String>) -> (r: (bool, Vec<FileOptionError>))
    ensures
        r.0 == spec_has_zip(opts@),
        r.1@ == flag_issues_model(opts@),
{
    let mut has_zip = false;
    let mut issues: Vec<FileOptionError> = Vec::new();
    let mut i: usize = 0;
    while i < opts.len()
        invariant
            i <= opts.len(),
            has_zip == spec_has_zip(opts@.take(i as int)),
            issues@ == flag_issues_model(opts@.take(i as int)),
        decreases opts.len() - i,
    {
        proof {
            lemma_take_push(opts@, i as int);
            assert(opts@.take(i as int).push(opts@[i as int]).drop_last() =~= opts@.take(i as int));
        }
        match FileOption::try_from(&opts[i]) {
            Ok(FileOption::Zip) => {
                has_zip = true;
            },
            Err(e) => {
                issues.push(e);
            },
        }
        i += 1;
    }
    proof {
        assert(opts@.take(opts@.len() as int) =~= opts@);
    }
    (has_zip, issues)
}

/// Apply the transforms that one resolved entry asks for: plan a plain copy
/// or an archive build for a file, and per walked entry for a directory.
pub fn apply_include_transforms(
    target: &IncludePath,
    has_zip: bool,
    listing: &Vec<WalkEntry>,
) -> (acts: Vec<StageAction>)
    ensures
        actions_view(acts@) == transform_model(*target, has_zip, listing@),
{
    let mut acts: Vec<StageAction> = Vec::new();
    match target {
        IncludePath::File(p) => {
            let base = base_name(p);
            if has_zip {
                let tname = base.clone();
                let tname = tname.concat(".zip");
                let mut items: Vec<ArchiveItem> = Vec::new();
                items.push(ArchiveItem { name: base, source: Some(p.clone()) });
                proof {
                    assert(items@.map_values(|it: ArchiveItem| item_view(it)) =~= seq![
                        (spec_base_name(p@), Some(p@)),
                    ]);
                }
                acts.push(StageAction::BuildArchive { target_name: tname, items });
                proof {
                    assert(actions_view(acts@) =~~= transform_model(*target, has_zip, listing@));
                }
            } else {
                acts.push(StageAction::CopyFile { source: p.clone(), target_name: base });
                proof {
                    assert(actions_view(acts@) =~~= transform_model(*target, has_zip, listing@));
                }
            }
        },
        IncludePath::Dir(p) => {
            let base = base_name(p);
            if has_zip {
                let mut items: Vec<ArchiveItem> = Vec::new();
                let mut i: usize = 0;
                while i < listing.len()
                    invariant
                        i <= listing.len(),
                        items@.map_values(|it: ArchiveItem| item_view(it)) == walk_archive_items(
                            listing@.take(i as int),
                        ),
                    decreases listing.len() - i,
                {
                    proof {
                        lemma_take_push(listing@, i as int);
                        assert(listing@.take(i as int).push(listing@[i as int]).drop_last()
                            =~= listing@.take(i as int));
                    }
                    let ghost items0 = items@;
                    let e = &listing[i];
                    match e.kind {
                        EntryKind::Dir => {
                            items.push(ArchiveItem { name: e.rel_path.clone(), source: None });
                        },
                        EntryKind::File => {
                            items.push(
                                ArchiveItem {
                                    name: e.rel_path.clone(),
                                    source: Some(e.full_path.clone()),
                                },
                            );
                        },
                        EntryKind::Symlink => {},
                    }
                    proof {
                        assert(items@.map_values(|it: ArchiveItem| item_view(it))
                            =~= walk_archive_items(listing@.take(i as int + 1)));
                    }
                    i += 1;
                }
                proof {
                    assert(listing@.take(listing@.len() as int) =~= listing@);
                }
                let tname = base.concat(".zip");
                acts.push(StageAction::BuildArchive { target_name: tname, items });
                proof {
                    assert(actions_view(acts@) =~~= transform_model(*target, has_zip, listing@));
                }
            } else {
                let mut i: usize = 0;
                while i < listing.len()
                    invariant
                        i <= listing.len(),
                        actions_view(acts@) == walk_copy_actions(listing@.take(i as int)),
                    decreases listing.len() - i,
                {
                    proof {
                        lemma_take_push(listing@, i as int);
                        assert(listing@.take(i as int).push(listing@[i as int]).drop_last()
                            =~= listing@.take(i as int));
                    }
                    let e = &listing[i];
                    match e.kind {
                        EntryKind::File => {
                            acts.push(
                                StageAction::CopyFile {
                                    source: e.full_path.clone(),
                                    target_name: base_name(&e.rel_path),
                                },
                            );
                        },
                        EntryKind::Dir => {},
                        EntryKind::Symlink => {},
                    }
                    proof {
                        assert(actions_view(acts@) =~~= walk_copy_actions(
                            listing@.take(i as int + 1),
                        ));
                    }
                    i += 1;
                }
                proof {
                    assert(listing@.take(listing@.len() as int) =~= listing@);
                }
            }
        },
    }
    acts
}

/// One configured entry as staging consumes it: the outcome of resolving its
/// path, its raw flag list, and — for a resolved directory — its walk
/// listing.
#[derive(Debug)]
pub struct StageEntry {
    pub resolved: Result<IncludePath, IncludeError>,
    pub options: Vec<String>,
    pub listing: Vec<WalkEntry>,
}

/// The planned outcome of a staging run: the actions to perform in order,
/// the per-entry resolution errors of skipped entries, and the per-flag
/// errors of staged entries.
#[derive(Debug)]
pub struct StagePlan {
    pub actions: Vec<StageAction>,
    pub skipped: Vec<IncludeError>,
    pub flag_issues: Vec<FileOptionError>,
}

/// The actions one entry owes: none when its path did not resolve.
pub open spec fn entry_actions_model(e: StageEntry) -> Seq<ActionView> {
    match e.resolved {
        Ok(t) => transform_model(t, spec_has_zip(e.options@), e.listing@),
        Err(_) => Seq::empty(),
    }
}

/// The actions a whole batch owes, entry by entry in order.
pub open spec fn plan_actions_model(es: Seq<StageEntry>) -> Seq<ActionView>
    decreases es.len(),
{
    if es.len() == 0 {
        Seq::empty()
    } else {
        plan_actions_model(es.drop_last()) + entry_actions_model(es.last())
    }
}

/// The resolution errors of the entries a batch skips, in order.
pub open spec fn plan_skipped_model(es: Seq<StageEntry>) -> Seq<IncludeError>
    decreases es.len(),
{
    if es.len() == 0 {
        Seq::empty()
    } else {
        plan_skipped_model(es.drop_last()) + (match es.last().resolved {
            Ok(_) => Seq::<IncludeError>::empty(),
            Err(e) => seq![e],
        })
    }
}

/// The per-flag errors of the entries a batch stages, in order.
pub open spec fn plan_flag_issues_model(es: Seq<StageEntry>) -> Seq<FileOptionError>
    decreases es.len(),
{
    if es.len() == 0 {
        Seq::empty()
    } else {
        plan_flag_issues_model(es.drop_last()) + (match es.last().resolved {
            Ok(_) => flag_issues_model(es.last().options@),
            Err(_) => Seq::<FileOptionError>::empty(),
        })
    }
}

/// Plan a whole staging run. An entry whose path did not resolve is skipped
/// and its error surfaced, while staging continues for every other entry; an
/// unrecognized flag is surfaced per flag and never unstages its entry.
pub fn stage_includes(entries: &Vec<StageEntry>) -> (plan: StagePlan)
    ensures
        actions_view(plan.actions@) == plan_actions_model(entries@),
        plan.skipped@ == plan_skipped_model(entries@),
        plan.flag_issues@ == plan_flag_issues_model(entries@),
{
    let mut actions: Vec<StageAction> = Vec::new();
    let mut skipped: Vec<IncludeError> = Vec::new();
    let mut flag_issues: Vec<FileOptionError> = Vec::new();
    let mut i: usize = 0;
    while i < entries.len()
        invariant
            i <= entries.len(),
            actions_view(actions@) == plan_actions_model(entries@.take(i as int)),
            skipped@ == plan_skipped_model(entries@.take(i as int)),
            flag_issues@ == plan_flag_issues_model(entries@.take(i as int)),
        decreases entries.len() - i,
    {
        proof {
            lemma_take_push(entries@, i as int);
            assert(entries@.take(i as int).push(entries@[i as int]).drop_last() =~= entries@.take(
                i as int,
            ));
        }
        let ghost acts0 = actions@;
        let e = &entries[i];
        match &e.resolved {
            Ok(target) => {
                let (has_zip, mut issues) = parse_options(&e.options);
                let mut acts = apply_include_transforms(target, has_zip, &e.listing);
                let ghost acts_new = acts@;
                actions.append(&mut acts);
                flag_issues.append(&mut issues);
                proof {
                    assert(actions_view(actions@) =~= actions_view(acts0) + actions_view(
                        acts_new,
                    ));
                }
            },
            Err(IncludeError::NotPresent(p)) => {
                skipped.push(IncludeError::NotPresent(p.clone()));
            },
        }
        i += 1;
    }
    proof {
        assert(entries@.take(entries@.len() as int) =~= entries@);
    }
    StagePlan { actions, skipped, flag_issues }
}

/// Staging a single present file with no zip flag plans exactly one action: a
/// byte-for-byte copy of that file into the scratch directory under its base
/// name.
pub proof fn lemma_stage_file_plain(target: IncludePath, listing: Seq<WalkEntry>)
    requires
        target is File,
    ensures
        transform_model(target, false, listing) == seq![
            ActionView::CopyFile {
                source: target.spec_path(),
                target_name: spec_base_name(target.spec_path()),
            },
        ],
{
}

/// Staging a single present file with the zip flag plans exactly one action:
/// building one archive, named after the file with a `.zip` suffix, holding a
/// single item that carries the file's bytes under the file's base name.
pub proof fn lemma_stage_file_zip(target: IncludePath, listing: Seq<WalkEntry>)
    requires
        target is File,
    ensures
        transform_model(target, true, listing) == seq![
            ActionView::BuildArchive {
                target_name: spec_zip_name(spec_base_name(target.spec_path())),
                items: seq![(spec_base_name(target.spec_path()), Some(target.spec_path()))],
            },
        ],
{
}

/// Staging a directory with the zip flag plans exactly one action: building
/// one archive, named after the directory with a `.zip` suffix, whose items
/// are the walked entries in order — each file under its relative path with
/// its source, each directory as a directory item, and symbolic links
/// skipped.
pub proof fn lemma_stage_dir_zip(target: IncludePath, listing: Seq<WalkEntry>)
    requires
        target is Dir,
    ensures
        transform_model(target, true, listing) == seq![
            ActionView::BuildArchive {
                target_name: spec_zip_name(spec_base_name(target.spec_path())),
                items: walk_archive_items(listing),
            },
        ],
{
}

/// Every walked file or directory entry contributes its item to the planned
/// archive; only symbolic links are left out.
pub proof fn lemma_archive_items_complete(l: Seq<WalkEntry>, j: int)
    requires
        0 <= j < l.len(),
        !(l[j].kind is Symlink),
    ensures
        walk_archive_items(l).contains(
            (
                l[j].rel_path@,
                match l[j].kind {
                    EntryKind::File => Some(l[j].full_path@),
                    _ => None,
                },
            ),
        ),
    decreases l.len(),
{
    let item = (
        l[j].rel_path@,
        match l[j].kind {
            EntryKind::File => Some(l[j].full_path@),
            _ => None,
        },
    );
    if j == l.len() - 1 {
        assert(walk_archive_items(l).last() == item);
    } else {
        lemma_archive_items_complete(l.drop_last(), j);
        let prefix = walk_archive_items(l.drop_last());
        let k = choose|k: int| 0 <= k < prefix.len() && prefix[k] == item;
        assert(walk_archive_items(l)[k] == item);
    }
}

/// An entry that did not resolve never contributes an action: its error is
/// surfaced and every other entry is still staged.
pub proof fn lemma_skipped_entry_still_stages(es: Seq<StageEntry>, j: int)
    requires
        0 <= j < es.len(),
        es[j].resolved is Err,
    ensures
        plan_actions_model(es) == plan_actions_model(es.remove(j)),
        plan_skipped_model(es).contains(es[j].resolved->Err_0),
    decreases es.len(),
{
    if j == es.len() - 1 {
        assert(es.remove(j) =~= es.drop_last());
        assert(entry_actions_model(es.last()) =~= Seq::<ActionView>::empty());
        assert(plan_actions_model(es) =~= plan_actions_model(es.drop_last()));
        assert(plan_skipped_model(es).last() == es[j].resolved->Err_0);
    } else {
        lemma_skipped_entry_still_stages(es.drop_last(), j);
        assert(es.remove(j).drop_last() =~= es.drop_last().remove(j));
        assert(es.remove(j).last() == es.last());
        let prefix = plan_skipped_model(es.drop_last());
        let e = es[j].resolved->Err_0;
        let k = choose|k: int| 0 <= k < prefix.len() && prefix[k] == e;
        assert(plan_skipped_model(es)[k] == e);
    }
}

} // verus!
