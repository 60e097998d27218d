//! The desktop's dealings with the rest of the system, as decisions on
//! plain values: reading the output of helper programs, mounting and
//! unmounting disk images step by step, the trash folder, preloading the
//! layer-shell library, the windows to open per monitor, and the debouncing
//! of folder change events.

use vstd::prelude::*;
use crate::text::{chars_of, string_from_chars, trim, trim_spec, lines_spec, push_all};
use crate::uri::{trimmed_lines, trimmed_nonempty, utf8_to_string_lossy, utf8_lossy, strings_view};
use crate::paths::{join_str, join_spec, is_absolute_spec};
use crate::config::{home_dir, home_view, opt_view};

verus! {

// ---------------------------------------------------------------------------
// helper programs
// ---------------------------------------------------------------------------

/// How a helper program ended.
pub enum ProcessOutcome {
    /// It could not be started; the error's text.
    NotStarted(String),
    /// It ran: whether it exited successfully, and what it wrote.
    Exited { success: bool, stdout: Vec<u8>, stderr: Vec<u8> },
}

/// The lines a query program answers with: the trimmed non-empty lines of
/// its output, read as lossy UTF-8, when it ran successfully.
pub open spec fn output_lines_spec(o: ProcessOutcome) -> Option<Seq<Seq<char>>> {
    match o {
        ProcessOutcome::Exited { success, stdout, stderr } => if success {
            Some(trimmed_nonempty(lines_spec(utf8_lossy(stdout@))))
        } else {
            None
        },
        _ => None,
    }
}

/// The lines a query program answers with.
pub fn output_lines(o: &ProcessOutcome) -> (r: Option<Vec<String>>)
    ensures
        match output_lines_spec(*o) {
            Some(ls) => r matches Some(v) && strings_view(v@) == ls,
            None => r is None,
        },
{
    match o {
        ProcessOutcome::Exited { success, stdout, stderr } => {
            if !*success {
                return None;
            }
            let text = utf8_to_string_lossy(stdout);
            let ls = trimmed_lines(text.as_str());
            let mut out: Vec<String> = Vec::new();
            let mut i: usize = 0;
            while i < ls.len()
                invariant
                    i <= ls@.len(),
                    strings_view(out@) == ls@.map_values(|v: Vec<char>| v@).take(i as int),
                decreases ls.len() - i,
            {
                let ghost before = out@;
                out.push(string_from_chars(&ls[i]));
                assert(strings_view(out@) =~= strings_view(before).push(ls@[i as int]@));
                assert(ls@.map_values(|v: Vec<char>| v@).take(i + 1) =~= ls@.map_values(
                    |v: Vec<char>| v@,
                ).take(i as int).push(ls@[i as int]@));
                i = i + 1;
            }
            assert(ls@.map_values(|v: Vec<char>| v@).take(ls@.len() as int) =~= ls@.map_values(
                |v: Vec<char>| v@,
            ));
            Some(out)
        },
        ProcessOutcome::NotStarted(_) => None,
    }
}

/// The answer of a query program: the first line it answers with.
pub open spec fn answer_spec(o: ProcessOutcome) -> Option<Seq<char>> {
    match output_lines_spec(o) {
        Some(ls) => if ls.len() > 0 {
            Some(ls[0])
        } else {
            None
        },
        None => None,
    }
}

/// The answer of a query program.
pub fn answer(o: &ProcessOutcome) -> (r: Option<String>)
    ensures
        opt_view(r) == answer_spec(*o),
{
    match output_lines(o) {
        Some(v) => if v.len() > 0 {
            assert(strings_view(v@)[0] == v@[0]@);
            Some(v[0].clone())
        } else {
            None
        },
        None => None,
    }
}

/// The result of a `udisksctl` command: success when it exited
/// successfully; otherwise its trimmed error output, or a hint when it
/// could not be started.
pub open spec fn udisks_result_spec(o: ProcessOutcome) -> Result<(), Seq<char>> {
    match o {
        ProcessOutcome::NotStarted(e) => Err("udisksctl: "@ + e@ + " (is udisks2 installed?)"@),
        ProcessOutcome::Exited { success, stdout, stderr } => if success {
            Ok(())
        } else {
            Err(trim_spec(utf8_lossy(stderr@)))
        },
    }
}

/// The result of a `udisksctl` command.
pub fn udisks_result(o: &ProcessOutcome) -> (r: Result<(), String>)
    ensures
        match udisks_result_spec(*o) {
            Ok(()) => r is Ok,
            Err(m) => r matches Err(s) && s@ == m,
        },
{
    match o {
        ProcessOutcome::NotStarted(e) => {
            let mut m = chars_of("udisksctl: ");
            push_all(&mut m, &chars_of(e.as_str()));
            push_all(&mut m, &chars_of(" (is udisks2 installed?)"));
            Err(string_from_chars(&m))
        },
        ProcessOutcome::Exited { success, stdout, stderr } => {
            if *success {
                Ok(())
            } else {
                let t = utf8_to_string_lossy(stderr);
                Err(string_from_chars(&trim(&chars_of(t.as_str()))))
            }
        },
    }
}

// ---------------------------------------------------------------------------
// disk images
// ---------------------------------------------------------------------------

/// A helper command run while mounting or unmounting a disk image.
#[derive(PartialEq, Eq, Debug)]
pub enum IsoCommand {
    /// Ask which loop device backs the image.
    FindLoop,
    /// Ask where a device is mounted.
    FindMount(String),
    /// Set up a loop device for the image.
    LoopSetup,
    /// Mount a device.
    Mount(String),
    /// Unmount a device.
    Unmount(String),
    /// Detach a loop device.
    LoopDelete(String),
}

/// A helper command as plain values.
pub enum IsoCommandView {
    FindLoop,
    FindMount(Seq<char>),
    LoopSetup,
    Mount(Seq<char>),
    Unmount(Seq<char>),
    LoopDelete(Seq<char>),
}

impl View for IsoCommand {
    type V = IsoCommandView;

    open spec fn view(&self) -> IsoCommandView {
        match self {
            IsoCommand::FindLoop => IsoCommandView::FindLoop,
            IsoCommand::FindMount(d) => IsoCommandView::FindMount(d@),
            IsoCommand::LoopSetup => IsoCommandView::LoopSetup,
            IsoCommand::Mount(d) => IsoCommandView::Mount(d@),
            IsoCommand::Unmount(d) => IsoCommandView::Unmount(d@),
            IsoCommand::LoopDelete(d) => IsoCommandView::LoopDelete(d@),
        }
    }
}

/// The program and arguments of a helper command for the image `iso`.
pub open spec fn command_line_spec(iso: Seq<char>, c: IsoCommandView) -> (Seq<char>, Seq<Seq<char>>) {
    match c {
        IsoCommandView::FindLoop => ("losetup"@, seq!["-j"@, iso, "-O"@, "NAME"@, "--noheadings"@]),
        IsoCommandView::FindMount(d) => ("findmnt"@, seq!["-n"@, "-o"@, "TARGET"@, "-S"@, d]),
        IsoCommandView::LoopSetup => ("udisksctl"@, seq!["loop-setup"@, "-f"@, iso]),
        IsoCommandView::Mount(d) => ("udisksctl"@, seq!["mount"@, "-b"@, d]),
        IsoCommandView::Unmount(d) => ("udisksctl"@, seq!["unmount"@, "-b"@, d]),
        IsoCommandView::LoopDelete(d) => ("udisksctl"@, seq!["loop-delete"@, "-b"@, d]),
    }
}

fn strs(a: &str, b: &str, c: &str) -> (r: Vec<String>)
    ensures
        strings_view(r@) == seq![a@, b@, c@],
{
    let mut v: Vec<String> = Vec::new();
    v.push(String::from_str(a));
    v.push(String::from_str(b));
    v.push(String::from_str(c));
    assert(strings_view(v@) =~= seq![a@, b@, c@]);
    v
}

fn strs5(a: &str, b: &str, c: &str, d: &str, e: &str) -> (r: Vec<String>)
    ensures
        strings_view(r@) == seq![a@, b@, c@, d@, e@],
{
    let mut v: Vec<String> = Vec::new();
    v.push(String::from_str(a));
    v.push(String::from_str(b));
    v.push(String::from_str(c));
    v.push(String::from_str(d));
    v.push(String::from_str(e));
    assert(strings_view(v@) =~= seq![a@, b@, c@, d@, e@]);
    v
}

/// The program and arguments of a helper command for the image `iso`.
pub fn command_line(iso: &str, c: &IsoCommand) -> (r: (String, Vec<String>))
    ensures
        r.0@ == command_line_spec(iso@, c@).0,
        strings_view(r.1@) == command_line_spec(iso@, c@).1,
{
    match c {
        IsoCommand::FindLoop => (String::from_str("losetup"), strs5("-j", iso, "-O", "NAME", "--noheadings")),
        IsoCommand::FindMount(d) => (String::from_str("findmnt"), strs5("-n", "-o", "TARGET", "-S", d.as_str())),
        IsoCommand::LoopSetup => (String::from_str("udisksctl"), strs("loop-setup", "-f", iso)),
        IsoCommand::Mount(d) => (String::from_str("udisksctl"), strs("mount", "-b", d.as_str())),
        IsoCommand::Unmount(d) => (String::from_str("udisksctl"), strs("unmount", "-b", d.as_str())),
        IsoCommand::LoopDelete(d) => (String::from_str("udisksctl"), strs("loop-delete", "-b", d.as_str())),
    }
}

/// Where mounting a disk image stands: which command was run last.
#[derive(PartialEq, Eq, Debug)]
pub enum MountState {
    /// Asked for the image's loop device, to see whether it is mounted.
    CheckedLoop,
    /// Asked where that loop device is mounted.
    CheckedMount,
    /// Not mounted: asked for the loop device again.
    FindingLoop,
    /// Set up a loop device.
    SettingUp,
    /// Asked for the loop device after setting it up.
    FoundAfterSetup,
    /// Asked where the image's device is mounted.
    CheckingDevice(String),
    /// Mounted the device.
    Mounting(String),
    /// Asked where the device got mounted.
    Verifying(String),
}

/// The next step of mounting a disk image: run a command, then continue in
/// the given state; or finish with the mount point or an error.
#[derive(PartialEq, Eq, Debug)]
pub enum MountAction {
    Run(MountState, IsoCommand),
    Finish(Result<String, String>),
}

/// Starts mounting a disk image: first ask for its loop device.
pub fn mount_start() -> (r: MountAction)
    ensures
        r == MountAction::Run(MountState::CheckedLoop, IsoCommand::FindLoop),
{
    MountAction::Run(MountState::CheckedLoop, IsoCommand::FindLoop)
}

/// A mount step as plain values.
pub enum MountStepView {
    CheckedLoop,
    CheckedMount,
    FindingLoop,
    SettingUp,
    FoundAfterSetup,
    CheckingDevice(Seq<char>),
    Mounting(Seq<char>),
    Verifying(Seq<char>),
}

impl View for MountState {
    type V = MountStepView;

    open spec fn view(&self) -> MountStepView {
        match self {
            MountState::CheckedLoop => MountStepView::CheckedLoop,
            MountState::CheckedMount => MountStepView::CheckedMount,
            MountState::FindingLoop => MountStepView::FindingLoop,
            MountState::SettingUp => MountStepView::SettingUp,
            MountState::FoundAfterSetup => MountStepView::FoundAfterSetup,
            MountState::CheckingDevice(d) => MountStepView::CheckingDevice(d@),
            MountState::Mounting(d) => MountStepView::Mounting(d@),
            MountState::Verifying(d) => MountStepView::Verifying(d@),
        }
    }
}

/// The next step of mounting as plain values.
pub enum MountActionView {
    Run(MountStepView, IsoCommandView),
    Finish(Result<Seq<char>, Seq<char>>),
}

impl View for MountAction {
    type V = MountActionView;

    open spec fn view(&self) -> MountActionView {
        match self {
            MountAction::Run(s, c) => MountActionView::Run(s@, c@),
            MountAction::Finish(Ok(m)) => MountActionView::Finish(Ok(m@)),
            MountAction::Finish(Err(e)) => MountActionView::Finish(Err(e@)),
        }
    }
}

/// Mounting a disk image, one command at a time. An image already looped
/// and mounted gives its mount point. Otherwise its loop device is looked
/// up again, and set up when there is none (a failed setup, or no device
/// after it, ends in an error); a device already mounted gives its mount
/// point; else it is mounted (a failure ends in its error) and its mount
/// point looked up (none ends in an error).
pub open spec fn mount_step_spec(s: MountStepView, o: ProcessOutcome) -> MountActionView {
    let found = answer_spec(o);
    match s {
        MountStepView::CheckedLoop => match found {
            Some(d) => MountActionView::Run(MountStepView::CheckedMount, IsoCommandView::FindMount(d)),
            None => MountActionView::Run(MountStepView::FindingLoop, IsoCommandView::FindLoop),
        },
        MountStepView::CheckedMount => match found {
            Some(m) => MountActionView::Finish(Ok(m)),
            None => MountActionView::Run(MountStepView::FindingLoop, IsoCommandView::FindLoop),
        },
        MountStepView::FindingLoop => match found {
            Some(d) => MountActionView::Run(MountStepView::CheckingDevice(d), IsoCommandView::FindMount(d)),
            None => MountActionView::Run(MountStepView::SettingUp, IsoCommandView::LoopSetup),
        },
        MountStepView::SettingUp => match udisks_result_spec(o) {
            Ok(()) => MountActionView::Run(MountStepView::FoundAfterSetup, IsoCommandView::FindLoop),
            Err(e) => MountActionView::Finish(Err(e)),
        },
        MountStepView::FoundAfterSetup => match found {
            Some(d) => MountActionView::Run(MountStepView::CheckingDevice(d), IsoCommandView::FindMount(d)),
            None => MountActionView::Finish(Err("loop device not found after setup"@)),
        },
        MountStepView::CheckingDevice(d) => match found {
            Some(m) => MountActionView::Finish(Ok(m)),
            None => MountActionView::Run(MountStepView::Mounting(d), IsoCommandView::Mount(d)),
        },
        MountStepView::Mounting(d) => match udisks_result_spec(o) {
            Ok(()) => MountActionView::Run(MountStepView::Verifying(d), IsoCommandView::FindMount(d)),
            Err(e) => MountActionView::Finish(Err(e)),
        },
        MountStepView::Verifying(d) => match found {
            Some(m) => MountActionView::Finish(Ok(m)),
            None => MountActionView::Finish(Err("mountpoint not found after mount"@)),
        },
    }
}

fn copy_string(s: &String) -> (r: String)
    ensures
        r@ == s@,
{
    s.clone()
}

/// The step of mounting that follows the outcome of the last command.
pub fn mount_step(state: MountState, outcome: &ProcessOutcome) -> (r: MountAction)
    ensures
        r@ == mount_step_spec(state@, *outcome),
{
    match state {
        MountState::CheckedLoop => match answer(outcome) {
            Some(d) => {
                let c = copy_string(&d);
                MountAction::Run(MountState::CheckedMount, IsoCommand::FindMount(c))
            },
            None => MountAction::Run(MountState::FindingLoop, IsoCommand::FindLoop),
        },
        MountState::CheckedMount => match answer(outcome) {
            Some(m) => MountAction::Finish(Ok(m)),
            None => MountAction::Run(MountState::FindingLoop, IsoCommand::FindLoop),
        },
        MountState::FindingLoop => match answer(outcome) {
            Some(d) => {
                let c = copy_string(&d);
                MountAction::Run(MountState::CheckingDevice(d), IsoCommand::FindMount(c))
            },
            None => MountAction::Run(MountState::SettingUp, IsoCommand::LoopSetup),
        },
        MountState::SettingUp => match udisks_result(outcome) {
            Ok(()) => MountAction::Run(MountState::FoundAfterSetup, IsoCommand::FindLoop),
            Err(e) => MountAction::Finish(Err(e)),
        },
        MountState::FoundAfterSetup => match answer(outcome) {
            Some(d) => {
                let c = copy_string(&d);
                MountAction::Run(MountState::CheckingDevice(d), IsoCommand::FindMount(c))
            },
            None => MountAction::Finish(Err(String::from_str("loop device not found after setup"))),
        },
        MountState::CheckingDevice(d) => match answer(outcome) {
            Some(m) => MountAction::Finish(Ok(m)),
            None => {
                let c = copy_string(&d);
                MountAction::Run(MountState::Mounting(d), IsoCommand::Mount(c))
            },
        },
        MountState::Mounting(d) => match udisks_result(outcome) {
            Ok(()) => {
                let c = copy_string(&d);
                MountAction::Run(MountState::Verifying(d), IsoCommand::FindMount(c))
            },
            Err(e) => MountAction::Finish(Err(e)),
        },
        MountState::Verifying(d) => match answer(outcome) {
            Some(m) => MountAction::Finish(Ok(m)),
            None => MountAction::Finish(Err(String::from_str("mountpoint not found after mount"))),
        },
    }
}

/// Where unmounting a disk image stands.
#[derive(PartialEq, Eq, Debug)]
pub enum UnmountState {
    /// Asked for the image's loop device.
    FindingLoop,
    /// Asked where that device is mounted.
    CheckingMount(String),
    /// Unmounted the device.
    Unmounting(String),
    /// Detached the loop device.
    Detaching,
}

/// The next step of unmounting a disk image.
#[derive(PartialEq, Eq, Debug)]
pub enum UnmountAction {
    Run(UnmountState, IsoCommand),
    Finish(Result<(), String>),
}

/// Starts unmounting a disk image: first ask for its loop device.
pub fn unmount_start() -> (r: UnmountAction)
    ensures
        r == UnmountAction::Run(UnmountState::FindingLoop, IsoCommand::FindLoop),
{
    UnmountAction::Run(UnmountState::FindingLoop, IsoCommand::FindLoop)
}

/// An unmount step as plain values.
pub enum UnmountStepView {
    FindingLoop,
    CheckingMount(Seq<char>),
    Unmounting(Seq<char>),
    Detaching,
}

impl View for UnmountState {
    type V = UnmountStepView;

    open spec fn view(&self) -> UnmountStepView {
        match self {
            UnmountState::FindingLoop => UnmountStepView::FindingLoop,
            UnmountState::CheckingMount(d) => UnmountStepView::CheckingMount(d@),
            UnmountState::Unmounting(d) => UnmountStepView::Unmounting(d@),
            UnmountState::Detaching => UnmountStepView::Detaching,
        }
    }
}

/// The next step of unmounting as plain values.
pub enum UnmountActionView {
    Run(UnmountStepView, IsoCommandView),
    Finish(Result<(), Seq<char>>),
}

impl View for UnmountAction {
    type V = UnmountActionView;

    open spec fn view(&self) -> UnmountActionView {
        match self {
            UnmountAction::Run(s, c) => UnmountActionView::Run(s@, c@),
            UnmountAction::Finish(Ok(())) => UnmountActionView::Finish(Ok(())),
            UnmountAction::Finish(Err(e)) => UnmountActionView::Finish(Err(e@)),
        }
    }
}

/// Unmounting a disk image, one command at a time: an image without a loop
/// device is not mounted (an error); a mounted device is unmounted first (a
/// failure ends in its error); then the loop device is detached, and that
/// command's result is the result.
pub open spec fn unmount_step_spec(s: UnmountStepView, o: ProcessOutcome) -> UnmountActionView {
    match s {
        UnmountStepView::FindingLoop => match answer_spec(o) {
            Some(d) => UnmountActionView::Run(UnmountStepView::CheckingMount(d), IsoCommandView::FindMount(d)),
            None => UnmountActionView::Finish(Err("ISO is not mounted"@)),
        },
        UnmountStepView::CheckingMount(d) => match answer_spec(o) {
            Some(_) => UnmountActionView::Run(UnmountStepView::Unmounting(d), IsoCommandView::Unmount(d)),
            None => UnmountActionView::Run(UnmountStepView::Detaching, IsoCommandView::LoopDelete(d)),
        },
        UnmountStepView::Unmounting(d) => match udisks_result_spec(o) {
            Ok(()) => UnmountActionView::Run(UnmountStepView::Detaching, IsoCommandView::LoopDelete(d)),
            Err(e) => UnmountActionView::Finish(Err(e)),
        },
        UnmountStepView::Detaching => match udisks_result_spec(o) {
            Ok(()) => UnmountActionView::Finish(Ok(())),
            Err(e) => UnmountActionView::Finish(Err(e)),
        },
    }
}

/// The step of unmounting that follows the outcome of the last command.
pub fn unmount_step(state: UnmountState, outcome: &ProcessOutcome) -> (r: UnmountAction)
    ensures
        r@ == unmount_step_spec(state@, *outcome),
{
    match state {
        UnmountState::FindingLoop => match answer(outcome) {
            Some(d) => {
                let c = copy_string(&d);
                UnmountAction::Run(UnmountState::CheckingMount(d), IsoCommand::FindMount(c))
            },
            None => UnmountAction::Finish(Err(String::from_str("ISO is not mounted"))),
        },
        UnmountState::CheckingMount(d) => match answer(outcome) {
            Some(_) => {
                let c = copy_string(&d);
                UnmountAction::Run(UnmountState::Unmounting(d), IsoCommand::Unmount(c))
            },
            None => UnmountAction::Run(UnmountState::Detaching, IsoCommand::LoopDelete(d)),
        },
        UnmountState::Unmounting(d) => match udisks_result(outcome) {
            Ok(()) => UnmountAction::Run(UnmountState::Detaching, IsoCommand::LoopDelete(d)),
            Err(e) => UnmountAction::Finish(Err(e)),
        },
        UnmountState::Detaching => match udisks_result(outcome) {
            Ok(()) => UnmountAction::Finish(Ok(())),
            Err(e) => UnmountAction::Finish(Err(e)),
        },
    }
}

/// Looking up where a disk image is mounted: its loop device, then that
/// device's mount point.
pub enum LookupState {
    /// Asked for the image's loop device.
    FindingLoop,
    /// Asked where the device is mounted.
    FindingMount,
}

/// The next step of looking up a disk image's mount point.
pub enum LookupAction {
    Run(LookupState, IsoCommand),
    /// The mount point, if the image is looped and mounted.
    Finish(Option<String>),
}

/// Starts looking up where a disk image is mounted.
pub fn lookup_start() -> (r: LookupAction)
    ensures
        r matches LookupAction::Run(LookupState::FindingLoop, IsoCommand::FindLoop),
{
    LookupAction::Run(LookupState::FindingLoop, IsoCommand::FindLoop)
}

/// The step of the lookup that follows the outcome of the last command: no
/// loop device means not mounted; otherwise the device's mount point, if
/// any, is the answer.
pub fn lookup_step(state: LookupState, outcome: &ProcessOutcome) -> (r: LookupAction)
    ensures
        state is FindingLoop ==> match answer_spec(*outcome) {
            Some(d) => r matches LookupAction::Run(LookupState::FindingMount, IsoCommand::FindMount(c)) && c@ == d,
            None => r matches LookupAction::Finish(None),
        },
        state is FindingMount ==> (r matches LookupAction::Finish(m) && opt_view(m) == answer_spec(*outcome)),
{
    match state {
        LookupState::FindingLoop => match answer(outcome) {
            Some(d) => LookupAction::Run(LookupState::FindingMount, IsoCommand::FindMount(d)),
            None => LookupAction::Finish(None),
        },
        LookupState::FindingMount => LookupAction::Finish(answer(outcome)),
    }
}

// ---------------------------------------------------------------------------
// the trash
// ---------------------------------------------------------------------------

/// The folder holding trashed files: under `$XDG_DATA_HOME` when that is an
/// absolute path, else under `~/.local/share`; `Trash/files` inside it.
pub open spec fn trash_files_dir_spec(xdg_data_home: Option<Seq<char>>, home: Option<Seq<char>>) -> Seq<char> {
    let base = if xdg_data_home is Some && is_absolute_spec(xdg_data_home->0) {
        xdg_data_home->0
    } else {
        match home {
            Some(h) => join_spec(join_spec(h, ".local"@), "share"@),
            None => seq![],
        }
    };
    join_spec(join_spec(base, "Trash"@), "files"@)
}

/// The folder holding trashed files, for the given `$XDG_DATA_HOME` and
/// home directory.
pub fn trash_files_dir_for(xdg_data_home: Option<&str>, home: Option<&str>) -> (r: String)
    ensures
        r@ == trash_files_dir_spec(home_view(xdg_data_home), home_view(home)),
{
    let xdg_abs = match xdg_data_home {
        Some(x) => {
            let xc = chars_of(x);
            xc.len() > 0 && xc[0] == '/'
        },
        None => false,
    };
    let base = if xdg_abs {
        match xdg_data_home {
            Some(x) => String::from_str(x),
            None => String::new(),
        }
    } else {
        match home {
            Some(h) => {
                let l = join_str(h, ".local");
                join_str(l.as_str(), "share")
            },
            None => String::new(),
        }
    };
    let t = join_str(base.as_str(), "Trash");
    join_str(t.as_str(), "files")
}

/// The folder holding the current user's trashed files, for the given
/// `$XDG_DATA_HOME`.
pub fn trash_files_dir(xdg_data_home: Option<&str>) -> (r: String)
    ensures
        exists|h: Option<Seq<char>>| r@ == #[trigger] trash_files_dir_spec(home_view(xdg_data_home), h),
{
    let home = home_dir();
    match &home {
        Some(h) => trash_files_dir_for(xdg_data_home, Some(h.as_str())),
        None => trash_files_dir_for(xdg_data_home, None),
    }
}

// ---------------------------------------------------------------------------
// preloading the layer-shell library
// ---------------------------------------------------------------------------

/// Where the layer-shell library is looked for first, in order.
pub open spec fn layer_shell_candidates_spec() -> Seq<Seq<char>> {
    seq![
        "/usr/lib/libgtk4-layer-shell.so"@,
        "/usr/lib64/libgtk4-layer-shell.so"@,
        "/usr/local/lib/libgtk4-layer-shell.so"@,
        "/usr/lib/x86_64-linux-gnu/libgtk4-layer-shell.so"@,
        "/usr/lib/aarch64-linux-gnu/libgtk4-layer-shell.so"@,
    ]
}

/// Where the layer-shell library is looked for first, in order; the first
/// that exists is used.
pub fn layer_shell_candidates() -> (r: Vec<String>)
    ensures
        strings_view(r@) == layer_shell_candidates_spec(),
{
    let mut v: Vec<String> = Vec::new();
    v.push(String::from_str("/usr/lib/libgtk4-layer-shell.so"));
    v.push(String::from_str("/usr/lib64/libgtk4-layer-shell.so"));
    v.push(String::from_str("/usr/local/lib/libgtk4-layer-shell.so"));
    v.push(String::from_str("/usr/lib/x86_64-linux-gnu/libgtk4-layer-shell.so"));
    v.push(String::from_str("/usr/lib/aarch64-linux-gnu/libgtk4-layer-shell.so"));
    assert(strings_view(v@) =~= layer_shell_candidates_spec());
    v
}

/// The pattern searched when no candidate exists; the first match is used.
pub fn layer_shell_pattern() -> (r: String)
    ensures
        r@ == "/usr/lib*/**/libgtk4-layer-shell.so*"@,
{
    String::from_str("/usr/lib*/**/libgtk4-layer-shell.so*")
}

/// Whether `item` is one of the `:`-separated entries of `list`.
pub open spec fn listed_in(item: Seq<char>, list: Seq<char>) -> bool {
    exists|i: int|
        0 <= i && i + item.len() <= list.len() && #[trigger] list.subrange(i, i + item.len()) == item && (i == 0
            || list[i - 1] == ':') && (i + item.len() == list.len() || list[i + item.len()] == ':')
            && !item.contains(':')
}

/// `s` without leading `:`.
pub open spec fn trim_colons_start(s: Seq<char>) -> Seq<char>
    decreases s.len(),
{
    if s.len() > 0 && s[0] == ':' {
        trim_colons_start(s.drop_first())
    } else {
        s
    }
}

/// `s` without trailing `:`.
pub open spec fn trim_colons_end(s: Seq<char>) -> Seq<char>
    decreases s.len(),
{
    if s.len() > 0 && s.last() == ':' {
        trim_colons_end(s.drop_last())
    } else {
        s
    }
}

/// The new `LD_PRELOAD` that loads the library `so` first: `None` when it
/// is already one of the entries; otherwise `so` put before the current
/// value, with `:` trimmed from both ends.
pub open spec fn preload_spec(so: Seq<char>, current: Seq<char>) -> Option<Seq<char>> {
    if listed_in(so, current) {
        None
    } else {
        Some(trim_colons_end(trim_colons_start(so + seq![':'] + current)))
    }
}

fn is_listed(item: &Vec<char>, list: &Vec<char>) -> (r: bool)
    ensures
        r == listed_in(item@, list@),
{
    let n = item.len();
    let m = list.len();
    if n > m {
        assert(!listed_in(item@, list@));
        return false;
    }
    let mut has_colon = false;
    let mut k: usize = 0;
    while k < n
        invariant
            k <= n,
            n == item@.len(),
            has_colon == exists|j: int| 0 <= j < k && item@[j] == ':',
        decreases n - k,
    {
        if item[k] == ':' {
            has_colon = true;
        }
        k = k + 1;
    }
    if has_colon {
        proof {
            let j = choose|j: int| 0 <= j < n && item@[j] == ':';
            assert(item@.contains(':'));
        }
        return false;
    }
    proof {
        assert forall|j: int| 0 <= j < item@.len() implies item@[j] != ':' by {}
        assert(!item@.contains(':'));
    }
    let last = m - n;
    let mut i: usize = 0;
    loop
        invariant
            n == item@.len(),
            m == list@.len(),
            n <= m,
            last == m - n,
            i <= last,
            !item@.contains(':'),
            forall|a: int|
                0 <= a < i ==> !(#[trigger] list@.subrange(a, a + n) == item@ && (a == 0 || list@[a - 1] == ':')
                    && (a + n == m || list@[a + n] == ':')),
        ensures
            forall|a: int|
                0 <= a <= last ==> !(#[trigger] list@.subrange(a, a + n) == item@ && (a == 0 || list@[a - 1]
                    == ':') && (a + n == m || list@[a + n] == ':')),
        decreases last - i,
    {
        let start_ok = i == 0 || list[i - 1] == ':';
        let end_ok = i + n == m || list[i + n] == ':';
        if start_ok && end_ok {
            let mut same = true;
            let mut j: usize = 0;
            while j < n
                invariant
                    j <= n,
                    n == item@.len(),
                    i + n <= m,
                    m == list@.len(),
                    same == forall|b: int| 0 <= b < j ==> list@[i + b] == item@[b],
                decreases n - j,
            {
                if list[i + j] != item[j] {
                    same = false;
                }
                j = j + 1;
            }
            if same {
                assert(list@.subrange(i as int, i + n) =~= item@);
                return true;
            } else {
                proof {
                    let b = choose|b: int| 0 <= b < n && list@[i + b] != item@[b];
                    assert(list@.subrange(i as int, i + n)[b] != item@[b]);
                }
            }
        }
        if i == last {
            break;
        }
        i = i + 1;
    }
    proof {
        if listed_in(item@, list@) {
            let a = choose|a: int|
                0 <= a && a + item@.len() <= list@.len() && #[trigger] list@.subrange(a, a + item@.len())
                    == item@ && (a == 0 || list@[a - 1] == ':') && (a + item@.len() == list@.len() || list@[a
                    + item@.len()] == ':') && !item@.contains(':');
            assert(a <= last);
        }
    }
    false
}

fn trim_colons(s: &Vec<char>) -> (r: Vec<char>)
    ensures
        r@ == trim_colons_end(trim_colons_start(s@)),
{
    let mut a: usize = 0;
    assert(s@.subrange(0, s@.len() as int) =~= s@);
    while a < s.len() && s[a] == ':'
        invariant
            a <= s.len(),
            trim_colons_start(s@) == trim_colons_start(s@.subrange(a as int, s@.len() as int)),
        decreases s.len() - a,
    {
        assert(s@.subrange(a as int, s@.len() as int).drop_first() =~= s@.subrange(a + 1, s@.len() as int));
        a = a + 1;
    }
    let ghost st = s@.subrange(a as int, s@.len() as int);
    assert(trim_colons_start(st) == st);
    let mut b: usize = s.len();
    while b > a && s[b - 1] == ':'
        invariant
            a <= b <= s.len(),
            st == s@.subrange(a as int, s@.len() as int),
            trim_colons_end(st) == trim_colons_end(s@.subrange(a as int, b as int)),
        decreases b,
    {
        assert(s@.subrange(a as int, b as int).drop_last() =~= s@.subrange(a as int, b - 1));
        b = b - 1;
    }
    let r = crate::text::slice_chars(s, a, b);
    assert(trim_colons_end(s@.subrange(a as int, b as int)) == s@.subrange(a as int, b as int));
    r
}

/// The new `LD_PRELOAD` that loads the library `so` first, or `None` when
/// it already does.
pub fn preload_value(so: &str, current: &str) -> (r: Option<String>)
    ensures
        opt_view(r) == preload_spec(so@, current@),
{
    let sc = chars_of(so);
    let cc = chars_of(current);
    if is_listed(&sc, &cc) {
        return None;
    }
    let mut joined = chars_of(so);
    joined.push(':');
    push_all(&mut joined, &cc);
    assert(joined@ =~= so@ + seq![':'] + current@);
    Some(string_from_chars(&trim_colons(&joined)))
}

// ---------------------------------------------------------------------------
// windows
// ---------------------------------------------------------------------------

/// The desktop windows to open, as (screen number, screen name): one
/// spanning window (`-1`, `virtual`) when not under Wayland with several
/// monitors; otherwise one per monitor, named `monitor-N`, and a single
/// unnamed one when no monitor is known.
pub open spec fn window_plan_spec(under_wayland: bool, monitors: nat) -> Seq<(int, Seq<char>)> {
    if !under_wayland && monitors > 1 {
        seq![(-1, "virtual"@)]
    } else if monitors == 0 {
        seq![(0, seq![])]
    } else {
        Seq::new(monitors, |i: int| (i, "monitor-"@ + crate::text::decimal_spec(i as nat)))
    }
}

/// The desktop windows to open.
pub fn window_plan(under_wayland: bool, monitors: u32) -> (r: Vec<(i32, String)>)
    requires
        monitors <= i32::MAX,
    ensures
        r@.map_values(|w: (i32, String)| (w.0 as int, w.1@)) == window_plan_spec(under_wayland, monitors as nat),
{
    let mut out: Vec<(i32, String)> = Vec::new();
    if !under_wayland && monitors > 1 {
        out.push((-1i32, String::from_str("virtual")));
        assert(out@.map_values(|w: (i32, String)| (w.0 as int, w.1@)) =~= window_plan_spec(
            under_wayland,
            monitors as nat,
        ));
        return out;
    }
    if monitors == 0 {
        out.push((0i32, String::new()));
        assert(out@.map_values(|w: (i32, String)| (w.0 as int, w.1@)) =~= window_plan_spec(
            under_wayland,
            monitors as nat,
        ));
        return out;
    }
    let ghost plan = window_plan_spec(under_wayland, monitors as nat);
    let mut i: u32 = 0;
    while i < monitors
        invariant
            i <= monitors,
            monitors <= i32::MAX,
            monitors > 0,
            !(!under_wayland && monitors > 1),
            plan == window_plan_spec(under_wayland, monitors as nat),
            out@.map_values(|w: (i32, String)| (w.0 as int, w.1@)) == plan.take(i as int),
        decreases monitors - i,
    {
        let mut name = chars_of("monitor-");
        push_all(&mut name, &crate::text::decimal(i as u64));
        let ghost before = out@;
        out.push((i as i32, string_from_chars(&name)));
        assert(out@.map_values(|w: (i32, String)| (w.0 as int, w.1@)) =~= before.map_values(
            |w: (i32, String)| (w.0 as int, w.1@),
        ).push((i as int, name@)));
        assert(plan.take(i + 1) =~= plan.take(i as int).push(plan[i as int]));
        i = i + 1;
    }
    assert(plan.take(monitors as int) =~= plan);
    out
}

/// Whether the desktop is shown, and the windows open for it (screen
/// number and name of each).
pub struct DesktopManager {
    enabled: bool,
    windows: Vec<(i32, String)>,
}

/// The windows of a plan as plain values.
pub open spec fn windows_view(w: Seq<(i32, String)>) -> Seq<(int, Seq<char>)> {
    w.map_values(|x: (i32, String)| (x.0 as int, x.1@))
}

impl View for DesktopManager {
    type V = (bool, Seq<(int, Seq<char>)>);

    closed spec fn view(&self) -> (bool, Seq<(int, Seq<char>)>) {
        (self.enabled, windows_view(self.windows@))
    }
}

/// What turning the desktop on or off asks of the caller.
pub enum ManagerStep {
    /// Start watching the folder and open these windows.
    Open(Vec<(i32, String)>),
    /// Stop watching the folder and close every window.
    Close,
    /// Nothing to do.
    Keep,
}

/// The state after turning the desktop on or off: turning it on when it is
/// off opens the planned windows; turning it off closes them all; asking
/// for the state it is already in changes nothing.
pub open spec fn manager_next(
    s: (bool, Seq<(int, Seq<char>)>),
    enabled: bool,
    under_wayland: bool,
    monitors: nat,
) -> (bool, Seq<(int, Seq<char>)>) {
    if enabled {
        if s.0 {
            s
        } else {
            (true, window_plan_spec(under_wayland, monitors))
        }
    } else {
        (false, seq![])
    }
}

impl DesktopManager {
    /// Off, with no window.
    pub fn new() -> (r: DesktopManager)
        ensures
            r@ == (false, Seq::<(int, Seq<char>)>::empty()),
    {
        let r = DesktopManager { enabled: false, windows: Vec::new() };
        assert(windows_view(r.windows@) =~= Seq::<(int, Seq<char>)>::empty());
        r
    }

    /// Whether the desktop is shown.
    pub fn enabled(&self) -> (r: bool)
        ensures
            r == self@.0,
    {
        self.enabled
    }

    /// How many windows are open.
    pub fn window_count(&self) -> (r: usize)
        ensures
            r == self@.1.len(),
    {
        self.windows.len()
    }

    /// Turns the desktop on (opening a window per monitor, or one spanning
    /// window; see `window_plan`) or off (closing every window).
    pub fn set_enabled(&mut self, enabled: bool, under_wayland: bool, monitors: u32) -> (r: ManagerStep)
        requires
            monitors <= i32::MAX,
        ensures
            final(self)@ == manager_next(old(self)@, enabled, under_wayland, monitors as nat),
            enabled && !old(self)@.0 ==> (r matches ManagerStep::Open(w) && windows_view(w@)
                == window_plan_spec(under_wayland, monitors as nat)),
            !enabled && old(self)@.0 ==> r is Close,
            enabled == old(self)@.0 ==> r is Keep,
    {
        if enabled {
            if self.enabled {
                return ManagerStep::Keep;
            }
            let plan = window_plan(under_wayland, monitors);
            let mut copy: Vec<(i32, String)> = Vec::new();
            let mut i: usize = 0;
            while i < plan.len()
                invariant
                    i <= plan@.len(),
                    windows_view(copy@) == windows_view(plan@).take(i as int),
                decreases plan.len() - i,
            {
                let ghost before = copy@;
                copy.push((plan[i].0, plan[i].1.clone()));
                assert(windows_view(copy@) =~= windows_view(before).push((plan@[i as int].0 as int, plan@[i as int].1@)));
                assert(windows_view(plan@).take(i + 1) =~= windows_view(plan@).take(i as int).push(
                    windows_view(plan@)[i as int],
                ));
                i = i + 1;
            }
            assert(windows_view(plan@).take(plan@.len() as int) =~= windows_view(plan@));
            assert(windows_view(plan@) == window_plan_spec(under_wayland, monitors as nat)) by {
                assert(windows_view(plan@) =~= plan@.map_values(|w: (i32, String)| (w.0 as int, w.1@)));
            }
            self.enabled = true;
            self.windows = copy;
            ManagerStep::Open(plan)
        } else {
            let was = self.enabled;
            self.enabled = false;
            self.windows = Vec::new();
            assert(windows_view(self.windows@) =~= Seq::<(int, Seq<char>)>::empty());
            if was {
                ManagerStep::Close
            } else {
                ManagerStep::Keep
            }
        }
    }
}

/// Turning the desktop on twice opens its windows once: the second time
/// changes nothing.
pub proof fn law_enable_twice(s: (bool, Seq<(int, Seq<char>)>), under_wayland: bool, monitors: nat)
    ensures
        manager_next(manager_next(s, true, under_wayland, monitors), true, under_wayland, monitors) == manager_next(
            s,
            true,
            under_wayland,
            monitors,
        ),
{
}

/// Turning the desktop off closes every window, whatever was open.
pub proof fn law_disable_closes_all(s: (bool, Seq<(int, Seq<char>)>), under_wayland: bool, monitors: nat)
    ensures
        manager_next(s, false, under_wayland, monitors) == (false, Seq::<(int, Seq<char>)>::empty()),
{
}

/// Turning an off desktop on opens one spanning window when not under
/// Wayland with several monitors, otherwise one window per monitor (at
/// least one).
pub proof fn law_windows_opened(s: (bool, Seq<(int, Seq<char>)>), under_wayland: bool, monitors: nat)
    requires
        !s.0,
    ensures
        manager_next(s, true, under_wayland, monitors).0,
        manager_next(s, true, under_wayland, monitors).1.len() == if !under_wayland && monitors > 1 {
            1
        } else if monitors == 0 {
            1
        } else {
            monitors
        },
{
}

/// The name a desktop window goes by: the given name, else `monitor-N` for
/// a monitor's window, else `virtual`.
pub open spec fn screen_label_spec(screen_num: i32, screen_name: Seq<char>) -> Seq<char> {
    if screen_name.len() > 0 {
        screen_name
    } else if screen_num >= 0 {
        "monitor-"@ + crate::text::decimal_spec(screen_num as nat)
    } else {
        "virtual"@
    }
}

/// The name a desktop window goes by.
pub fn screen_label(screen_num: i32, screen_name: &str) -> (r: String)
    ensures
        r@ == screen_label_spec(screen_num, screen_name@),
{
    if screen_name.unicode_len() > 0 {
        String::from_str(screen_name)
    } else if screen_num >= 0 {
        let mut v = chars_of("monitor-");
        push_all(&mut v, &crate::text::decimal(screen_num as u64));
        string_from_chars(&v)
    } else {
        String::from_str("virtual")
    }
}

/// The title of a desktop window: `Desktop ` and its name.
pub fn window_title(label: &str) -> (r: String)
    ensures
        r@ == "Desktop "@ + label@,
{
    let mut v = chars_of("Desktop ");
    push_all(&mut v, &chars_of(label));
    string_from_chars(&v)
}

/// Where a desktop window is shown.
#[derive(Clone, Copy, PartialEq, Eq, Debug)]
pub enum Placement {
    /// Spanning the screen, on no particular monitor.
    Virtual,
    /// On the monitor with this index.
    Monitor(usize),
    /// On whichever monitor the compositor picks.
    Unassigned,
}

/// Where the window for a screen number goes: `-1` spans the screen; a
/// known monitor's number puts it there; any other number leaves it to
/// the compositor.
pub fn placement(screen_num: i32, monitors: usize) -> (r: Placement)
    ensures
        r == (if screen_num == -1 {
            Placement::Virtual
        } else if 0 <= screen_num && (screen_num as int) < monitors {
            Placement::Monitor(screen_num as usize)
        } else {
            Placement::Unassigned
        }),
{
    if screen_num == -1 {
        Placement::Virtual
    } else if screen_num >= 0 && (screen_num as usize) < monitors {
        Placement::Monitor(screen_num as usize)
    } else {
        Placement::Unassigned
    }
}

/// Whether `t` occurs in `s`.
pub open spec fn contains_text(s: Seq<char>, t: Seq<char>) -> bool {
    exists|i: int| 0 <= i && i + t.len() <= s.len() && #[trigger] s.subrange(i, i + t.len()) == t
}

fn find_text(s: &Vec<char>, t: &Vec<char>) -> (r: bool)
    ensures
        r == contains_text(s@, t@),
{
    let n = t.len();
    let m = s.len();
    if n > m {
        return false;
    }
    let last = m - n;
    let mut i: usize = 0;
    loop
        invariant
            n == t@.len(),
            m == s@.len(),
            n <= m,
            last == m - n,
            i <= last,
            forall|a: int| 0 <= a < i ==> #[trigger] s@.subrange(a, a + n) != t@,
        ensures
            forall|a: int| 0 <= a <= last ==> #[trigger] s@.subrange(a, a + n) != t@,
        decreases last - i,
    {
        let mut same = true;
        let mut j: usize = 0;
        while j < n
            invariant
                j <= n,
                n == t@.len(),
                i + n <= m,
                m == s@.len(),
                same == forall|b: int| 0 <= b < j ==> s@[i + b] == t@[b],
            decreases n - j,
        {
            if s[i + j] != t[j] {
                same = false;
            }
            j = j + 1;
        }
        if same {
            assert(s@.subrange(i as int, i + n) =~= t@);
            return true;
        } else {
            proof {
                let b = choose|b: int| 0 <= b < n && s@[i + b] != t@[b];
                assert(s@.subrange(i as int, i + n)[b] != t@[b]);
            }
        }
        if i == last {
            break;
        }
        i = i + 1;
    }
    proof {
        if contains_text(s@, t@) {
            let a = choose|a: int| 0 <= a && a + t@.len() <= s@.len() && #[trigger] s@.subrange(a, a + t@.len()) == t@;
            assert(a <= last);
        }
    }
    false
}

/// Whether a display is a Wayland display: its name, in lower case,
/// contains `wayland`.
pub fn is_wayland_display(name: &str) -> (r: bool)
    ensures
        r == contains_text(crate::sorting::lowercase_spec(name@), "wayland"@),
{
    let lower = crate::sorting::to_lowercase(name);
    find_text(&chars_of(lower.as_str()), &chars_of("wayland"))
}

// ---------------------------------------------------------------------------
// launching helpers
// ---------------------------------------------------------------------------

/// The content type under which a file's default application is looked
/// up: directories as `inode/directory`, other files by their guessed type.
pub fn opened_content_type(is_dir: bool, guessed: &str) -> (r: String)
    ensures
        r@ == (if is_dir {
            "inode/directory"@
        } else {
            guessed@
        }),
{
    if is_dir {
        String::from_str("inode/directory")
    } else {
        String::from_str(guessed)
    }
}

/// The type whose default application opens a file: every text type goes
/// to the plain-text editor; `is_text` tells whether the content type is a
/// kind of `text/plain`.
pub fn lookup_type(content_type: &str, is_text: bool) -> (r: String)
    ensures
        r@ == (if is_text {
            "text/plain"@
        } else {
            content_type@
        }),
{
    if is_text {
        String::from_str("text/plain")
    } else {
        String::from_str(content_type)
    }
}

/// After a launch, the compositor is asked this many milliseconds later,
/// each time, to focus the new window.
pub fn focus_retry_delays() -> (r: Vec<u64>)
    ensures
        r@ == seq![150u64, 450u64, 1000u64],
{
    let mut v: Vec<u64> = Vec::new();
    v.push(150);
    v.push(450);
    v.push(1000);
    assert(v@ =~= seq![150u64, 450u64, 1000u64]);
    v
}

// ---------------------------------------------------------------------------
// watching the desktop folder
// ---------------------------------------------------------------------------

/// A change reported in the watched folder.
#[derive(Clone, Copy, PartialEq, Eq, Debug)]
pub enum FsEvent {
    Created,
    Deleted,
    Changed,
    Renamed,
    MovedIn,
    MovedOut,
    Other,
}

/// The name of a change, as logged.
pub open spec fn event_name_spec(e: FsEvent) -> Seq<char> {
    match e {
        FsEvent::Created => "created"@,
        FsEvent::Deleted => "deleted"@,
        FsEvent::Changed => "changed"@,
        FsEvent::Renamed => "renamed"@,
        FsEvent::MovedIn => "moved_in"@,
        FsEvent::MovedOut => "moved_out"@,
        FsEvent::Other => "changed"@,
    }
}

/// The name of a change.
pub fn event_name(e: FsEvent) -> (r: String)
    ensures
        r@ == event_name_spec(e),
{
    match e {
        FsEvent::Created => String::from_str("created"),
        FsEvent::Deleted => String::from_str("deleted"),
        FsEvent::Changed => String::from_str("changed"),
        FsEvent::Renamed => String::from_str("renamed"),
        FsEvent::MovedIn => String::from_str("moved_in"),
        FsEvent::MovedOut => String::from_str("moved_out"),
        FsEvent::Other => String::from_str("changed"),
    }
}

/// How long the folder must stay quiet before the icons are refreshed.
pub const DEBOUNCE_MS: u64 = 100;

/// Changes seen in the watched folder since the last refresh. A refresh
/// runs once the folder has been quiet for `DEBOUNCE_MS`.
pub struct PendingChanges {
    names: Vec<String>,
}

impl View for PendingChanges {
    type V = Set<Seq<char>>;

    closed spec fn view(&self) -> Set<Seq<char>> {
        strings_view(self.names@).to_set()
    }
}

impl PendingChanges {
    #[verifier::type_invariant]
    spec fn inv(self) -> bool {
        strings_view(self.names@).no_duplicates()
    }

    /// No change seen.
    pub fn new() -> (r: PendingChanges)
        ensures
            r@ == Set::<Seq<char>>::empty(),
    {
        let r = PendingChanges { names: Vec::new() };
        assert(strings_view(r.names@) =~= Seq::<Seq<char>>::empty());
        r
    }

    /// A change to the file named `basename` (`None`: it has no name).
    /// Changes to nameless or hidden files are ignored; for others the name
    /// of the change is noted and the result is true: the quiet period
    /// starts over.
    pub fn record(&mut self, basename: Option<&str>, e: FsEvent) -> (restart: bool)
        ensures
            restart == (basename matches Some(b) && !crate::desktop::is_hidden(b@)),
            final(self)@ == (if restart {
                old(self)@.insert(event_name_spec(e))
            } else {
                old(self)@
            }),
    {
        let b = match basename {
            Some(b) => b,
            None => return false,
        };
        let bc = chars_of(b);
        if bc.len() > 0 && bc[0] == '.' {
            return false;
        }
        proof {
            use_type_invariant(&*self);
        }
        let name = event_name(e);
        let mut found = false;
        let mut i: usize = 0;
        while i < self.names.len()
            invariant
                i <= self.names@.len(),
                found == exists|k: int| 0 <= k < i && #[trigger] self.names@[k]@ == name@,
            decreases self.names.len() - i,
        {
            if self.names[i] == name {
                found = true;
            }
            i = i + 1;
        }
        let ghost before = strings_view(self.names@);
        if found {
            proof {
                let k = choose|k: int| 0 <= k < self.names@.len() && #[trigger] self.names@[k]@ == name@;
                assert(before[k] == name@);
                assert(before.to_set().insert(name@) =~= before.to_set());
            }
        } else {
            let mut names = Vec::new();
            std::mem::swap(&mut names, &mut self.names);
            let ghost old_names = names@;
            names.push(name);
            proof {
                assert(strings_view(names@) =~= before.push(event_name_spec(e)));
                assert(!before.contains(event_name_spec(e))) by {
                    if before.contains(event_name_spec(e)) {
                        let k = choose|k: int| 0 <= k < before.len() && before[k] == event_name_spec(e);
                        assert(old_names[k]@ == name@);
                    }
                }
                before.lemma_push_to_set_commute(event_name_spec(e));
                assert(strings_view(names@).no_duplicates()) by {
                    assert forall|a: int, c: int|
                        0 <= a < strings_view(names@).len() && 0 <= c < strings_view(names@).len() && a != c
                            implies strings_view(names@)[a] != strings_view(names@)[c] by {
                        if a < before.len() && c < before.len() {
                        } else if a == before.len() {
                            assert(before[c] == strings_view(names@)[c]);
                        } else {
                            assert(before[a] == strings_view(names@)[a]);
                        }
                    }
                }
            }
            self.names = names;
        }
        true
    }

    /// The quiet period ended: hands out the changes seen (each once) and
    /// forgets them; the icons are then refreshed.
    pub fn take(&mut self) -> (r: Vec<String>)
        ensures
            strings_view(r@).to_set() == old(self)@,
            strings_view(r@).no_duplicates(),
            final(self)@ == Set::<Seq<char>>::empty(),
    {
        proof {
            use_type_invariant(&*self);
        }
        let mut names = Vec::new();
        std::mem::swap(&mut names, &mut self.names);
        assert(strings_view(self.names@) =~= Seq::<Seq<char>>::empty());
        assert(strings_view(self.names@).to_set() =~= Set::<Seq<char>>::empty());
        names
    }
}

} // verus!
