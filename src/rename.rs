use vstd::prelude::*;

use crate::content_guard::{is_recognized_path, path_is_recognized};
use crate::error::FsError;
use crate::file_ops::{force_extension, with_recognized_ext};
use crate::path_guard::{
    components, is_plain_name, opt_view, path_components, render, render_path, safe_join,
    validate, validate_spec, views,
};

verus! {

/// Where a rename of `old` to `new_name` leads: the validated old path and the
/// new path beside it, carrying the recognized extension.
pub open spec fn rename_target_spec(old: Seq<char>, new_name: Seq<char>, root: Option<Seq<char>>) -> Result<
    (Seq<char>, Seq<char>),
    FsError,
> {
    match validate_spec(old, root) {
        Err(e) => Err(e),
        Ok(vo) => if !path_is_recognized(vo) {
            Err(FsError::WrongExtension)
        } else if !is_plain_name(new_name) {
            Err(FsError::InvalidPath)
        } else {
            let parent = render(components(vo).drop_last());
            match validate_spec(parent + seq!['/'] + new_name, root) {
                Err(e) => Err(e),
                Ok(j) => if components(j).len() == 0 {
                    Err(FsError::InvalidPath)
                } else {
                    Ok(
                        (
                            vo,
                            render(
                                components(j).drop_last().push(
                                    with_recognized_ext(components(j).last()),
                                ),
                            ),
                        ),
                    )
                },
            }
        },
    }
}

/// Where a rename stands.
#[derive(Debug)]
pub enum RenameState {
    /// Waiting to learn whether the new path is taken.
    CheckingTarget,
    /// Waiting for the old file's content.
    ReadingOld,
    /// Waiting for the copy to be written.
    WritingNew,
    /// Waiting for the copy to be read back.
    VerifyingNew,
    /// Removing a copy that failed verification; the rename then fails.
    DiscardingNew(FsError),
    /// Removing the old file after a verified copy.
    RemovingOld,
    Done,
}

/// A rename in progress: copy, verify, then remove the old file.
#[derive(Debug)]
pub struct RenameMachine {
    pub old_path: String,
    pub new_path: String,
    pub content: String,
    pub state: RenameState,
}

/// A completed rename.
#[derive(Debug, Clone, PartialEq, Eq)]
pub struct Renamed {
    pub path: String,
    /// The old file could not be removed and is still there.
    pub old_left_behind: bool,
}

/// What the caller has to do next.
#[derive(Debug)]
pub enum RenameAction {
    CheckExists(String),
    Read(String),
    Write(String, String),
    Remove(String),
    Finish(Result<Renamed, FsError>),
}

/// What the caller observed.
#[derive(Debug)]
pub enum RenameEvent {
    Exists(bool),
    ReadDone(Result<String, String>),
    WriteDone(Result<(), String>),
    RemoveDone(Result<(), String>),
}

pub open spec fn with_state(m: RenameMachine, s: RenameState) -> RenameMachine {
    RenameMachine { old_path: m.old_path, new_path: m.new_path, content: m.content, state: s }
}

/// The next state and action after `ev`.
pub open spec fn step_spec(m: RenameMachine, ev: RenameEvent) -> (RenameMachine, RenameAction) {
    match m.state {
        RenameState::CheckingTarget => match ev {
            RenameEvent::Exists(taken) => if taken {
                (with_state(m, RenameState::Done), RenameAction::Finish(Err(FsError::AlreadyExists)))
            } else {
                (with_state(m, RenameState::ReadingOld), RenameAction::Read(m.old_path))
            },
            _ => (with_state(m, RenameState::Done), RenameAction::Finish(Err(FsError::UnexpectedEvent))),
        },
        RenameState::ReadingOld => match ev {
            RenameEvent::ReadDone(Ok(c)) => (
                RenameMachine {
                    old_path: m.old_path,
                    new_path: m.new_path,
                    content: c,
                    state: RenameState::WritingNew,
                },
                RenameAction::Write(m.new_path, c),
            ),
            RenameEvent::ReadDone(Err(e)) => (
                with_state(m, RenameState::Done),
                RenameAction::Finish(Err(FsError::Io(e))),
            ),
            _ => (with_state(m, RenameState::Done), RenameAction::Finish(Err(FsError::UnexpectedEvent))),
        },
        RenameState::WritingNew => match ev {
            RenameEvent::WriteDone(Ok(())) => (
                with_state(m, RenameState::VerifyingNew),
                RenameAction::Read(m.new_path),
            ),
            RenameEvent::WriteDone(Err(e)) => (
                with_state(m, RenameState::Done),
                RenameAction::Finish(Err(FsError::Io(e))),
            ),
            _ => (with_state(m, RenameState::Done), RenameAction::Finish(Err(FsError::UnexpectedEvent))),
        },
        RenameState::VerifyingNew => match ev {
            RenameEvent::ReadDone(Ok(c)) => if c@ == m.content@ {
                (with_state(m, RenameState::RemovingOld), RenameAction::Remove(m.old_path))
            } else {
                (
                    with_state(m, RenameState::DiscardingNew(FsError::VerificationMismatch)),
                    RenameAction::Remove(m.new_path),
                )
            },
            RenameEvent::ReadDone(Err(e)) => (
                with_state(m, RenameState::DiscardingNew(FsError::Io(e))),
                RenameAction::Remove(m.new_path),
            ),
            _ => (with_state(m, RenameState::Done), RenameAction::Finish(Err(FsError::UnexpectedEvent))),
        },
        RenameState::DiscardingNew(f) => match ev {
            RenameEvent::RemoveDone(_) => (with_state(m, RenameState::Done), RenameAction::Finish(Err(f))),
            _ => (with_state(m, RenameState::Done), RenameAction::Finish(Err(FsError::UnexpectedEvent))),
        },
        RenameState::RemovingOld => match ev {
            RenameEvent::RemoveDone(r) => (
                with_state(m, RenameState::Done),
                RenameAction::Finish(Ok(Renamed { path: m.new_path, old_left_behind: r is Err })),
            ),
            _ => (with_state(m, RenameState::Done), RenameAction::Finish(Err(FsError::UnexpectedEvent))),
        },
        RenameState::Done => (m, RenameAction::Finish(Err(FsError::UnexpectedEvent))),
    }
}

fn unexpected(old_path: String, new_path: String, content: String) -> (r: (RenameMachine, RenameAction))
    ensures
        r.0 == (RenameMachine { old_path, new_path, content, state: RenameState::Done }),
        r.1 == RenameAction::Finish(Err(FsError::UnexpectedEvent)),
{
    (
        RenameMachine { old_path, new_path, content, state: RenameState::Done },
        RenameAction::Finish(Err(FsError::UnexpectedEvent)),
    )
}

impl RenameMachine {
    /// Advances the rename by one observed event.
    pub fn step(self, ev: RenameEvent) -> (r: (RenameMachine, RenameAction))
        ensures
            r == step_spec(self, ev),
    {
        let RenameMachine { old_path, new_path, content, state } = self;
        match state {
            RenameState::CheckingTarget => match ev {
                RenameEvent::Exists(taken) => if taken {
                    (
                        RenameMachine { old_path, new_path, content, state: RenameState::Done },
                        RenameAction::Finish(Err(FsError::AlreadyExists)),
                    )
                } else {
                    let a = RenameAction::Read(old_path.clone());
                    (RenameMachine { old_path, new_path, content, state: RenameState::ReadingOld }, a)
                },
                _ => unexpected(old_path, new_path, content),
            },
            RenameState::ReadingOld => match ev {
                RenameEvent::ReadDone(Ok(c)) => {
                    let a = RenameAction::Write(new_path.clone(), c.clone());
                    (RenameMachine { old_path, new_path, content: c, state: RenameState::WritingNew }, a)
                },
                RenameEvent::ReadDone(Err(e)) => (
                    RenameMachine { old_path, new_path, content, state: RenameState::Done },
                    RenameAction::Finish(Err(FsError::Io(e))),
                ),
                _ => unexpected(old_path, new_path, content),
            },
            RenameState::WritingNew => match ev {
                RenameEvent::WriteDone(Ok(())) => {
                    let a = RenameAction::Read(new_path.clone());
                    (RenameMachine { old_path, new_path, content, state: RenameState::VerifyingNew }, a)
                },
                RenameEvent::WriteDone(Err(e)) => (
                    RenameMachine { old_path, new_path, content, state: RenameState::Done },
                    RenameAction::Finish(Err(FsError::Io(e))),
                ),
                _ => unexpected(old_path, new_path, content),
            },
            RenameState::VerifyingNew => match ev {
                RenameEvent::ReadDone(Ok(c)) => if c == content {
                    let a = RenameAction::Remove(old_path.clone());
                    (RenameMachine { old_path, new_path, content, state: RenameState::RemovingOld }, a)
                } else {
                    let a = RenameAction::Remove(new_path.clone());
                    (
                        RenameMachine {
                            old_path,
                            new_path,
                            content,
                            state: RenameState::DiscardingNew(FsError::VerificationMismatch),
                        },
                        a,
                    )
                },
                RenameEvent::ReadDone(Err(e)) => {
                    let a = RenameAction::Remove(new_path.clone());
                    (
                        RenameMachine {
                            old_path,
                            new_path,
                            content,
                            state: RenameState::DiscardingNew(FsError::Io(e)),
                        },
                        a,
                    )
                },
                _ => unexpected(old_path, new_path, content),
            },
            RenameState::DiscardingNew(f) => match ev {
                RenameEvent::RemoveDone(_) => (
                    RenameMachine { old_path, new_path, content, state: RenameState::Done },
                    RenameAction::Finish(Err(f)),
                ),
                _ => unexpected(old_path, new_path, content),
            },
            RenameState::RemovingOld => match ev {
                RenameEvent::RemoveDone(res) => {
                    let left = res.is_err();
                    let a = RenameAction::Finish(Ok(Renamed { path: new_path.clone(), old_left_behind: left }));
                    (RenameMachine { old_path, new_path, content, state: RenameState::Done }, a)
                },
                _ => unexpected(old_path, new_path, content),
            },
            RenameState::Done => (
                RenameMachine { old_path, new_path, content, state: RenameState::Done },
                RenameAction::Finish(Err(FsError::UnexpectedEvent)),
            ),
        }
    }
}

/// The validated old path and the new path of a rename.
pub fn rename_target(old_path: &str, new_name: &str, root: Option<&str>) -> (r: Result<(String, String), FsError>)
    ensures
        match r {
            Ok((o, n)) => rename_target_spec(old_path@, new_name@, opt_view(root)) == Ok::<
                (Seq<char>, Seq<char>),
                FsError,
            >((o@, n@)),
            Err(e) => rename_target_spec(old_path@, new_name@, opt_view(root)) == Err::<
                (Seq<char>, Seq<char>),
                FsError,
            >(e),
        },
{
    let vo = validate(old_path, root)?;
    if !is_recognized_path(vo.as_str()) {
        return Err(FsError::WrongExtension);
    }
    let mut comps = path_components(vo.as_str());
    let ghost oc = comps@;
    comps.pop();
    assert(views(comps@) =~= views(oc).drop_last());
    let parent = render_path(&comps);
    let j = safe_join(parent.as_str(), new_name, root)?;
    let mut jc = path_components(j.as_str());
    if jc.len() == 0 {
        return Err(FsError::InvalidPath);
    }
    let ghost jv = views(jc@);
    let last = jc.pop().unwrap();
    assert(last@ == jv.last());
    let forced = force_extension(last.as_str());
    jc.push(forced);
    assert(views(jc@) =~= jv.drop_last().push(with_recognized_ext(jv.last())));
    Ok((vo, render_path(&jc)))
}

/// Begins renaming `old_path` to `new_name` in the same directory. A rename
/// onto the file's own path finishes at once without touching the disk.
pub fn start_rename(old_path: &str, new_name: &str, root: Option<&str>) -> (r: Result<
    (RenameMachine, RenameAction),
    FsError,
>)
    ensures
        match rename_target_spec(old_path@, new_name@, opt_view(root)) {
            Err(e) => r == Err::<(RenameMachine, RenameAction), FsError>(e),
            Ok((o, n)) => r is Ok && r->Ok_0.0.old_path@ == o && r->Ok_0.0.new_path@ == n
                && r->Ok_0.0.content@ == Seq::<char>::empty() && if o == n {
                r->Ok_0.0.state is Done && r->Ok_0.1 == RenameAction::Finish(
                    Ok(Renamed { path: r->Ok_0.0.new_path, old_left_behind: false }),
                )
            } else {
                r->Ok_0.0.state is CheckingTarget && r->Ok_0.1 == RenameAction::CheckExists(
                    r->Ok_0.0.new_path,
                )
            },
        },
{
    let (o, n) = rename_target(old_path, new_name, root)?;
    let same = o == n;
    let a = if same {
        RenameAction::Finish(Ok(Renamed { path: n.clone(), old_left_behind: false }))
    } else {
        RenameAction::CheckExists(n.clone())
    };
    let state = if same {
        RenameState::Done
    } else {
        RenameState::CheckingTarget
    };
    Ok((RenameMachine { old_path: o, new_path: n, content: String::new(), state }, a))
}

/// What a disk holding `disk` (path to content) answers to `a`. Removing a
/// path in `stuck` fails and leaves the file; every other operation succeeds.
pub open spec fn perform(disk: Map<Seq<char>, String>, a: RenameAction, stuck: Set<Seq<char>>) -> (
    Map<Seq<char>, String>,
    RenameEvent,
) {
    match a {
        RenameAction::CheckExists(p) => (disk, RenameEvent::Exists(disk.contains_key(p@))),
        RenameAction::Read(p) => if disk.contains_key(p@) {
            (disk, RenameEvent::ReadDone(Ok(disk[p@])))
        } else {
            (disk, RenameEvent::ReadDone(Err(arbitrary())))
        },
        RenameAction::Write(p, c) => (disk.insert(p@, c), RenameEvent::WriteDone(Ok(()))),
        RenameAction::Remove(p) => if stuck.contains(p@) {
            (disk, RenameEvent::RemoveDone(Err(arbitrary())))
        } else {
            (disk.remove(p@), RenameEvent::RemoveDone(Ok(())))
        },
        RenameAction::Finish(_) => (disk, RenameEvent::Exists(false)),
    }
}

/// Runs the machine against the disk for at most `fuel` actions; gives the
/// last action and the disk after it.
pub open spec fn drive(
    m: RenameMachine,
    a: RenameAction,
    disk: Map<Seq<char>, String>,
    stuck: Set<Seq<char>>,
    fuel: nat,
) -> (RenameAction, Map<Seq<char>, String>)
    decreases fuel,
{
    if fuel == 0 || a is Finish {
        (a, disk)
    } else {
        let (d2, ev) = perform(disk, a, stuck);
        let (m2, a2) = step_spec(m, ev);
        drive(m2, a2, d2, stuck, (fuel - 1) as nat)
    }
}

/// Renaming onto a path that another file occupies fails, and the disk,
/// the old file included, is left as it was.
pub proof fn lemma_rename_onto_existing_fails(
    m: RenameMachine,
    disk: Map<Seq<char>, String>,
    stuck: Set<Seq<char>>,
)
    requires
        m.state is CheckingTarget,
        m.old_path@ != m.new_path@,
        disk.contains_key(m.new_path@),
    ensures
        drive(m, RenameAction::CheckExists(m.new_path), disk, stuck, 6) == (
            RenameAction::Finish(Err(FsError::AlreadyExists)),
            disk,
        ),
{
    reveal_with_fuel(drive, 2);
}

/// A rename that succeeds leaves the new file holding exactly the old file's
/// former content, and the old file gone unless the result says it was left
/// behind; the two are never both missing.
pub proof fn lemma_rename_success_moves_content(
    m: RenameMachine,
    disk: Map<Seq<char>, String>,
    stuck: Set<Seq<char>>,
)
    requires
        m.state is CheckingTarget,
        m.old_path@ != m.new_path@,
    ensures
        ({
            let (fin, d) = drive(m, RenameAction::CheckExists(m.new_path), disk, stuck, 6);
            fin matches RenameAction::Finish(Ok(ren)) ==> {
                &&& ren.path == m.new_path
                &&& disk.contains_key(m.old_path@)
                &&& d.contains_key(m.new_path@)
                &&& d[m.new_path@]@ == disk[m.old_path@]@
                &&& (!d.contains_key(m.old_path@) || ren.old_left_behind)
            }
        }),
{
    reveal_with_fuel(drive, 7);
}

/// On a disk where the old file exists, the new path is free and the old file
/// can be removed, a rename succeeds and leaves nothing behind.
pub proof fn lemma_rename_to_free_path_succeeds(
    m: RenameMachine,
    disk: Map<Seq<char>, String>,
    stuck: Set<Seq<char>>,
)
    requires
        m.state is CheckingTarget,
        m.old_path@ != m.new_path@,
        disk.contains_key(m.old_path@),
        !disk.contains_key(m.new_path@),
        !stuck.contains(m.old_path@),
    ensures
        ({
            let (fin, d) = drive(m, RenameAction::CheckExists(m.new_path), disk, stuck, 6);
            &&& fin == RenameAction::Finish(
                Ok(Renamed { path: m.new_path, old_left_behind: false }),
            )
            &&& d == disk.remove(m.old_path@).insert(m.new_path@, disk[m.old_path@])
        }),
{
    reveal_with_fuel(drive, 7);
    let c = disk[m.old_path@];
    assert(disk.insert(m.new_path@, c).remove(m.old_path@) =~= disk.remove(m.old_path@).insert(
        m.new_path@,
        c,
    ));
}

} // verus!
