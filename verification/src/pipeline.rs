//! The disk-image build: the fixed script of Oberon commands and file steps
//! that compiles a host toolchain, a cross-compiler and a source tree, links a
//! fresh inner core onto a disk and installs the files, decided one step at a
//! time. Whoever runs it performs each [`BuildAction`] (on the file system and
//! through the headless shim) and answers with a [`BuildEvent`].
use vstd::prelude::*;
use vstd::string::*;

use crate::resolve::Candidate;

verus! {

/// The views of a list of strings.
pub open spec fn strs(v: Seq<String>) -> Seq<Seq<char>> {
    v.map_values(|s: String| s@)
}

/// `ORP.Compile` over `modules`, each followed by `/s` (strict Oberon-07).
pub open spec fn compile_spec(modules: Seq<Seq<char>>) -> Seq<Seq<char>> {
    seq!["ORP.Compile"@] + Seq::new(modules.len(), |i: int| modules[i] + "/s"@)
}

/// The argument list of `ORP.Compile` over `modules`: the command, then each
/// module followed by `/s`.
pub fn compile_args(modules: &[String]) -> (a: Vec<String>)
    ensures
        strs(a@) == compile_spec(strs(modules@)),
{
    let mut a: Vec<String> = Vec::new();
    a.push("ORP.Compile".to_owned());
    let mut i: usize = 0;
    while i < modules.len()
        invariant
            i <= modules@.len(),
            strs(a@) =~= seq!["ORP.Compile"@] + Seq::new(i as nat, |j: int| strs(modules@)[j] + "/s"@),
        decreases modules.len() - i,
    {
        let mut m = modules[i].clone();
        m.append("/s");
        let ghost prev = a@;
        let ghost mv = m@;
        a.push(m);
        assert(strs(a@) =~= strs(prev).push(mv));
        i = i + 1;
        assert(strs(a@) =~= seq!["ORP.Compile"@] + Seq::new(i as nat, |j: int| strs(modules@)[j] + "/s"@));
    }
    a
}

/// The object file a linked `.rsx` name installs as: its last three chars
/// made `rsc`.
pub open spec fn rsc_name(r: Seq<char>) -> Seq<char> {
    if r.len() >= 3 {
        r.subrange(0, r.len() - 3) + "rsc"@
    } else {
        r
    }
}

/// `VDiskUtil.InstallFiles` onto `Oberon.dsk`: every visible source file under
/// its own name, every linked object `X.rsx` as `X.rsc`, every symbol file
/// under its own name, each written `from=>to`.
pub open spec fn install_spec(visible: Seq<Seq<char>>, rsx: Seq<Seq<char>>, smb: Seq<Seq<char>>) -> Seq<Seq<char>> {
    seq!["VDiskUtil.InstallFiles"@, "Oberon.dsk"@] + Seq::new(
        visible.len(),
        |i: int| visible[i] + "=>"@ + visible[i],
    ) + Seq::new(rsx.len(), |i: int| rsx[i] + "=>"@ + rsc_name(rsx[i])) + Seq::new(
        smb.len(),
        |i: int| smb[i] + "=>"@ + smb[i],
    )
}

/// `from=>to`.
fn arrow(from: &String, to: &str) -> (s: String)
    ensures
        s@ == from@ + "=>"@ + to@,
{
    let mut s = from.clone();
    s.append("=>");
    s.append(to);
    s
}

/// The install argument list (see [`install_spec`]).
pub fn install_args(visible: &[String], rsx: &[String], smb: &[String]) -> (a: Vec<String>)
    ensures
        strs(a@) == install_spec(strs(visible@), strs(rsx@), strs(smb@)),
{
    let mut a: Vec<String> = Vec::new();
    a.push("VDiskUtil.InstallFiles".to_owned());
    a.push("Oberon.dsk".to_owned());
    let ghost head = seq!["VDiskUtil.InstallFiles"@, "Oberon.dsk"@];
    let ghost vs = strs(visible@);
    let ghost rs = strs(rsx@);
    let ghost ss = strs(smb@);
    let mut i: usize = 0;
    while i < visible.len()
        invariant
            i <= visible@.len(),
            vs == strs(visible@),
            strs(a@) =~= head + Seq::new(i as nat, |j: int| vs[j] + "=>"@ + vs[j]),
        decreases visible.len() - i,
    {
        let t = arrow(&visible[i], visible[i].as_str());
        let ghost prev = a@;
        let ghost tv = t@;
        a.push(t);
        assert(strs(a@) =~= strs(prev).push(tv));
        i = i + 1;
        assert(strs(a@) =~= head + Seq::new(i as nat, |j: int| vs[j] + "=>"@ + vs[j]));
    }
    let ghost part1 = strs(a@);
    let mut i: usize = 0;
    while i < rsx.len()
        invariant
            i <= rsx@.len(),
            rs == strs(rsx@),
            strs(a@) =~= part1 + Seq::new(i as nat, |j: int| rs[j] + "=>"@ + rsc_name(rs[j])),
        decreases rsx.len() - i,
    {
        let r = rsx[i].as_str();
        let n = r.unicode_len();
        let s = if n >= 3 {
            let mut t = r.substring_char(0, n - 3).to_owned();
            t.append("rsc");
            arrow(&rsx[i], t.as_str())
        } else {
            arrow(&rsx[i], r)
        };
        let ghost prev = a@;
        let ghost tv = s@;
        assert(tv == rs[i as int] + "=>"@ + rsc_name(rs[i as int]));
        a.push(s);
        assert(strs(a@) =~= strs(prev).push(tv));
        i = i + 1;
        assert(strs(a@) =~= part1 + Seq::new(i as nat, |j: int| rs[j] + "=>"@ + rsc_name(rs[j])));
    }
    let ghost part2 = strs(a@);
    let mut i: usize = 0;
    while i < smb.len()
        invariant
            i <= smb@.len(),
            ss == strs(smb@),
            strs(a@) =~= part2 + Seq::new(i as nat, |j: int| ss[j] + "=>"@ + ss[j]),
        decreases smb.len() - i,
    {
        let t = arrow(&smb[i], smb[i].as_str());
        let ghost prev = a@;
        let ghost tv = t@;
        a.push(t);
        assert(strs(a@) =~= strs(prev).push(tv));
        i = i + 1;
        assert(strs(a@) =~= part2 + Seq::new(i as nat, |j: int| ss[j] + "=>"@ + ss[j]));
    }
    a
}

/// The modules of `cands`.
pub open spec fn modules_of(cands: Seq<Candidate>) -> Seq<Seq<char>> {
    cands.map_values(|c: Candidate| c.module@)
}

/// The source files of `cands`.
pub open spec fn files_of(cands: Seq<Candidate>) -> Seq<Seq<char>> {
    cands.map_values(|c: Candidate| c.file@)
}

/// The first module at index `i` or later whose `MODULE.rsc` is not among
/// `objects`.
pub open spec fn first_missing(modules: Seq<Seq<char>>, objects: Seq<Seq<char>>, i: int) -> Option<int>
    decreases modules.len() - i,
{
    if i < 0 || i >= modules.len() {
        None
    } else if !objects.contains(modules[i] + ".rsc"@) {
        Some(i)
    } else {
        first_missing(modules, objects, i + 1)
    }
}

/// Whether `objects` holds `name`.
fn holds(objects: &[String], name: &String) -> (b: bool)
    ensures
        b == strs(objects@).contains(name@),
{
    let mut i: usize = 0;
    while i < objects.len()
        invariant
            i <= objects@.len(),
            forall|j: int| 0 <= j < i ==> objects@[j]@ != name@,
        decreases objects.len() - i,
    {
        if objects[i] == *name {
            assert(strs(objects@)[i as int] == name@);
            return true;
        }
        i = i + 1;
    }
    assert forall|j: int| 0 <= j < strs(objects@).len() implies strs(objects@)[j] != name@ by {}
    false
}

/// The first candidate (in compile order) whose object `MODULE.rsc` is not
/// among `objects`: the one that did not compile.
pub fn first_uncompiled(plan: &[Candidate], objects: &[String]) -> (r: Option<usize>)
    ensures
        match first_missing(modules_of(plan@), strs(objects@), 0) {
            Some(i) => r == Some(i as usize),
            None => r is None,
        },
{
    let ghost ms = modules_of(plan@);
    let ghost os = strs(objects@);
    let mut i: usize = 0;
    while i < plan.len()
        invariant
            i <= plan@.len(),
            ms == modules_of(plan@),
            os == strs(objects@),
            first_missing(ms, os, 0) == first_missing(ms, os, i as int),
        decreases plan.len() - i,
    {
        let mut name = plan[i].module.clone();
        name.append(".rsc");
        assert(name@ == ms[i as int] + ".rsc"@);
        if !holds(objects, &name) {
            return Some(i);
        }
        i = i + 1;
    }
    None
}

/// What sets one image builder apart from another: the toolchain seed (the
/// host glue sources and the bootstrap objects, written flat into the
/// toolchain directory), the inner core that the freshly linked one must
/// reproduce byte for byte, and a name for messages.
pub struct Seed {
    pub toolchain: Vec<(String, Vec<u8>)>,
    pub golden_inner_core: Vec<u8>,
    pub name: String,
}

impl Seed {
    /// Whether the freshly linked inner core `fresh` reproduces the golden one.
    pub fn reproduces_golden(&self, fresh: &[u8]) -> (b: bool)
        ensures
            b == (fresh@ == self.golden_inner_core@),
    {
        let g = self.golden_inner_core.as_slice();
        if fresh.len() != g.len() {
            return false;
        }
        let mut i: usize = 0;
        while i < g.len()
            invariant
                fresh@.len() == g@.len(),
                g@ == self.golden_inner_core@,
                i <= g@.len(),
                forall|j: int| 0 <= j < i ==> fresh@[j] == g@[j],
            decreases g@.len() - i,
        {
            if fresh[i] != g[i] {
                return false;
            }
            i = i + 1;
        }
        assert(fresh@ =~= g@);
        true
    }
}

/// A directory of the build: the scratch root, the toolchain seed, the host
/// toolchain, the cross-compiler, the system objects, and the source tree.
#[derive(Debug, Clone, Copy, PartialEq, Eq, Structural)]
pub enum Dir {
    Scratch,
    Toolchain,
    Norebo,
    Compiler,
    Oberon,
    Sources,
}

/// A file extension the build renames or deletes by.
#[derive(Debug, Clone, Copy, PartialEq, Eq, Structural)]
pub enum Ext {
    Rsc,
    Rsx,
    Smb,
}

/// Why a build stopped.
#[derive(Debug, Clone, Copy, PartialEq, Eq, Structural)]
pub enum BuildError {
    /// An Oberon command ended with this non-zero exit code.
    Exited(i32),
    /// The candidate at this index of the plan produced no object.
    NotCompiled(usize),
    /// A file-system step failed.
    Io,
    /// An answer that does not fit the step.
    Unexpected,
}

/// What to do next.
pub enum BuildAction {
    /// Create the scratch directory and its subdirectories, and write the
    /// seed's toolchain files into `Toolchain`.
    Prepare,
    /// Run one Oberon command under the shim in `cwd`, searching `path`.
    Run { args: Vec<String>, cwd: Dir, path: Vec<Dir> },
    /// Rename every `*.from` in `dir` to `*.to`.
    Rename { dir: Dir, from: Ext, to: Ext },
    /// Delete every `*.ext` in `dir`.
    Delete { dir: Dir, ext: Ext },
    /// Compare the freshly linked inner core with the seed's golden one (see
    /// [`Seed::reproduces_golden`]; a warning at most).
    CheckGolden,
    /// List the `.rsc` files of `Oberon`.
    ListObjects,
    /// List the `.rsx` and the `.smb` files of `Oberon`, each sorted.
    ListInstall,
    /// Copy the finished `Oberon.dsk` out; the build is done.
    Finish,
    /// Stop: the build failed.
    Fail(BuildError),
}

/// The meaning of a [`BuildAction`].
pub enum Act {
    Prepare,
    Run(Seq<Seq<char>>, Dir, Seq<Dir>),
    Rename(Dir, Ext, Ext),
    Delete(Dir, Ext),
    CheckGolden,
    ListObjects,
    ListInstall,
    Finish,
    Fail(BuildError),
}

impl View for BuildAction {
    type V = Act;

    open spec fn view(&self) -> Act {
        match self {
            BuildAction::Prepare => Act::Prepare,
            BuildAction::Run { args, cwd, path } => Act::Run(strs(args@), *cwd, path@),
            BuildAction::Rename { dir, from, to } => Act::Rename(*dir, *from, *to),
            BuildAction::Delete { dir, ext } => Act::Delete(*dir, *ext),
            BuildAction::CheckGolden => Act::CheckGolden,
            BuildAction::ListObjects => Act::ListObjects,
            BuildAction::ListInstall => Act::ListInstall,
            BuildAction::Finish => Act::Finish,
            BuildAction::Fail(e) => Act::Fail(*e),
        }
    }
}

/// How the last action went.
pub enum BuildEvent {
    /// The build begins.
    Start,
    /// A file-system step succeeded.
    Done,
    /// An Oberon command ended with this exit code.
    Exited(i32),
    /// The object files found (for [`BuildAction::ListObjects`]).
    Objects(Vec<String>),
    /// The `.rsx` and `.smb` files found (for [`BuildAction::ListInstall`]).
    Installables(Vec<String>, Vec<String>),
    /// A file-system step failed.
    IoError,
}

/// The meaning of a [`BuildEvent`].
pub enum Ev {
    Start,
    Done,
    Exited(i32),
    Objects(Seq<Seq<char>>),
    Installables(Seq<Seq<char>>, Seq<Seq<char>>),
    IoError,
}

impl View for BuildEvent {
    type V = Ev;

    open spec fn view(&self) -> Ev {
        match self {
            BuildEvent::Start => Ev::Start,
            BuildEvent::Done => Ev::Done,
            BuildEvent::Exited(c) => Ev::Exited(*c),
            BuildEvent::Objects(os) => Ev::Objects(strs(os@)),
            BuildEvent::Installables(r, s) => Ev::Installables(strs(r@), strs(s@)),
            BuildEvent::IoError => Ev::IoError,
        }
    }
}

/// What the build works from: the candidates in compile order, and the
/// visible files of the source tree, sorted.
pub struct BuildPlan {
    pub candidates: Vec<Candidate>,
    pub visible: Vec<String>,
}

/// The meaning of a [`BuildPlan`].
pub struct PlanView {
    pub files: Seq<Seq<char>>,
    pub modules: Seq<Seq<char>>,
    pub visible: Seq<Seq<char>>,
}

impl View for BuildPlan {
    type V = PlanView;

    open spec fn view(&self) -> PlanView {
        PlanView {
            files: files_of(self.candidates@),
            modules: modules_of(self.candidates@),
            visible: strs(self.visible@),
        }
    }
}

/// How far the build has come: the number of the next step.
#[derive(Debug, Clone, Copy, PartialEq, Eq, Structural)]
pub struct BuildState {
    pub step: u32,
}

/// The step after which the build is over.
pub const DONE: u32 = 16;

/// The host toolchain's modules, compiled from the seed and the source tree
/// and linked into the inner core the shim runs.
pub open spec fn norebo_modules() -> Seq<Seq<char>> {
    seq![
        "Norebo.Mod"@,
        "Kernel.Mod"@,
        "FileDir.Mod"@,
        "Files.Mod"@,
        "Modules.Mod"@,
        "Fonts.Mod"@,
        "Texts.Mod"@,
        "RS232.Mod"@,
        "Oberon.Mod"@,
        "ORS.Mod"@,
        "ORB.Mod"@,
        "ORG.Mod"@,
        "ORP.Mod"@,
        "CoreLinker.Mod"@,
        "VDisk.Mod"@,
        "VFileDir.Mod"@,
        "VFiles.Mod"@,
        "VDiskUtil.Mod"@,
    ]
}

/// The cross-compiler's modules.
pub open spec fn compiler_modules() -> Seq<Seq<char>> {
    seq!["ORS.Mod"@, "ORB.Mod"@, "ORG.Mod"@, "ORP.Mod"@]
}

/// Linking the host toolchain into a new inner core.
pub open spec fn link_serial() -> Seq<Seq<char>> {
    seq!["CoreLinker.LinkSerial"@, "Modules"@, "InnerCore"@]
}

/// Linking the system's inner core onto a fresh disk.
pub open spec fn link_disk() -> Seq<Seq<char>> {
    seq!["CoreLinker.LinkDisk"@, "Modules"@, "Oberon.dsk"@]
}

/// The search path of the cross-compiler and the system compile.
pub open spec fn std_path() -> Seq<Dir> {
    seq![Dir::Sources, Dir::Compiler, Dir::Norebo]
}

/// The step when a command ended well: `next` with `act`.
pub open spec fn after_run(ev: Ev, next: u32, act: Act) -> (BuildState, Act) {
    match ev {
        Ev::Exited(0) => (BuildState { step: next }, act),
        Ev::Exited(c) => (BuildState { step: DONE }, Act::Fail(BuildError::Exited(c))),
        Ev::IoError => (BuildState { step: DONE }, Act::Fail(BuildError::Io)),
        _ => (BuildState { step: DONE }, Act::Fail(BuildError::Unexpected)),
    }
}

/// The step when a file-system step ended well: `next` with `act`.
pub open spec fn after_done(ev: Ev, next: u32, act: Act) -> (BuildState, Act) {
    match ev {
        Ev::Done => (BuildState { step: next }, act),
        Ev::IoError => (BuildState { step: DONE }, Act::Fail(BuildError::Io)),
        _ => (BuildState { step: DONE }, Act::Fail(BuildError::Unexpected)),
    }
}

/// The build, step by step: from state `st` and the answer `ev` to the last
/// action, the next state and action. The script: prepare the scratch tree;
/// compile the host toolchain in `Norebo` (searching the seed, then the
/// sources); rename its objects `.rsx`, link the inner core, rename them back;
/// check it against the embedded one; compile the cross-compiler in
/// `Compiler`; delete both directories' symbol files; compile the candidates
/// in `Oberon`; fail on the first candidate without an object; rename the
/// objects `.rsx` and link them onto `Oberon.dsk`; install the files; finish.
/// A failed file-system step, a non-zero exit code or an answer that does not
/// fit stops the build with that error.
pub open spec fn build_step_spec(p: PlanView, st: BuildState, ev: Ev) -> (BuildState, Act) {
    let n = st.step;
    if n == 0 {
        match ev {
            Ev::Start => (BuildState { step: 1 }, Act::Prepare),
            _ => (BuildState { step: DONE }, Act::Fail(BuildError::Unexpected)),
        }
    } else if n == 1 {
        after_done(ev, 2, Act::Run(compile_spec(norebo_modules()), Dir::Norebo, seq![Dir::Toolchain, Dir::Sources]))
    } else if n == 2 {
        after_run(ev, 3, Act::Rename(Dir::Norebo, Ext::Rsc, Ext::Rsx))
    } else if n == 3 {
        after_done(ev, 4, Act::Run(link_serial(), Dir::Norebo, seq![Dir::Toolchain]))
    } else if n == 4 {
        after_run(ev, 5, Act::Rename(Dir::Norebo, Ext::Rsx, Ext::Rsc))
    } else if n == 5 {
        after_done(ev, 6, Act::CheckGolden)
    } else if n == 6 {
        after_done(ev, 7, Act::Run(compile_spec(compiler_modules()), Dir::Compiler, std_path()))
    } else if n == 7 {
        after_run(ev, 8, Act::Delete(Dir::Norebo, Ext::Smb))
    } else if n == 8 {
        after_done(ev, 9, Act::Delete(Dir::Compiler, Ext::Smb))
    } else if n == 9 {
        after_done(ev, 10, Act::Run(compile_spec(p.files), Dir::Oberon, std_path()))
    } else if n == 10 {
        after_run(ev, 11, Act::ListObjects)
    } else if n == 11 {
        match ev {
            Ev::Objects(os) => match first_missing(p.modules, os, 0) {
                Some(i) => (BuildState { step: DONE }, Act::Fail(BuildError::NotCompiled(i as usize))),
                None => (BuildState { step: 12 }, Act::Rename(Dir::Oberon, Ext::Rsc, Ext::Rsx)),
            },
            Ev::IoError => (BuildState { step: DONE }, Act::Fail(BuildError::Io)),
            _ => (BuildState { step: DONE }, Act::Fail(BuildError::Unexpected)),
        }
    } else if n == 12 {
        after_done(ev, 13, Act::Run(link_disk(), Dir::Scratch, seq![Dir::Oberon, Dir::Norebo]))
    } else if n == 13 {
        after_run(ev, 14, Act::ListInstall)
    } else if n == 14 {
        match ev {
            Ev::Installables(rsx, smb) => (
                BuildState { step: 15 },
                Act::Run(install_spec(p.visible, rsx, smb), Dir::Scratch, seq![Dir::Oberon, Dir::Sources, Dir::Norebo]),
            ),
            Ev::IoError => (BuildState { step: DONE }, Act::Fail(BuildError::Io)),
            _ => (BuildState { step: DONE }, Act::Fail(BuildError::Unexpected)),
        }
    } else if n == 15 {
        after_run(ev, DONE, Act::Finish)
    } else {
        (BuildState { step: DONE }, Act::Fail(BuildError::Unexpected))
    }
}

/// The strings of `names`, in order.
fn owned(names: &[&str]) -> (v: Vec<String>)
    ensures
        v@.len() == names@.len(),
        forall|i: int| 0 <= i < names@.len() ==> #[trigger] v@[i]@ == names@[i]@,
{
    let mut v: Vec<String> = Vec::new();
    let mut i: usize = 0;
    while i < names.len()
        invariant
            i <= names@.len(),
            v@.len() == i,
            forall|j: int| 0 <= j < i ==> #[trigger] v@[j]@ == names@[j]@,
        decreases names.len() - i,
    {
        v.push(names[i].to_owned());
        i = i + 1;
    }
    v
}

/// The host toolchain's modules (see [`norebo_modules`]).
fn norebo_module_names() -> (v: Vec<String>)
    ensures
        strs(v@) == norebo_modules(),
{
    let names: [&str; 18] = [
        "Norebo.Mod",
        "Kernel.Mod",
        "FileDir.Mod",
        "Files.Mod",
        "Modules.Mod",
        "Fonts.Mod",
        "Texts.Mod",
        "RS232.Mod",
        "Oberon.Mod",
        "ORS.Mod",
        "ORB.Mod",
        "ORG.Mod",
        "ORP.Mod",
        "CoreLinker.Mod",
        "VDisk.Mod",
        "VFileDir.Mod",
        "VFiles.Mod",
        "VDiskUtil.Mod",
    ];
    let v = owned(&names);
    assert(strs(v@) =~= norebo_modules());
    v
}

/// The cross-compiler's modules (see [`compiler_modules`]).
fn compiler_module_names() -> (v: Vec<String>)
    ensures
        strs(v@) == compiler_modules(),
{
    let names: [&str; 4] = ["ORS.Mod", "ORB.Mod", "ORG.Mod", "ORP.Mod"];
    let v = owned(&names);
    assert(strs(v@) =~= compiler_modules());
    v
}

/// Three words of a command line.
fn command3(a: &str, b: &str, c: &str) -> (v: Vec<String>)
    ensures
        strs(v@) == seq![a@, b@, c@],
{
    let mut v: Vec<String> = Vec::new();
    v.push(a.to_owned());
    v.push(b.to_owned());
    v.push(c.to_owned());
    assert(strs(v@) =~= seq![a@, b@, c@]);
    v
}

/// The search path of the cross-compiler and the system compile.
fn std_dirs() -> (v: Vec<Dir>)
    ensures
        v@ == std_path(),
{
    let v = vec![Dir::Sources, Dir::Compiler, Dir::Norebo];
    assert(v@ =~= std_path());
    v
}

/// See [`after_run`].
fn next_after_run(ev: &BuildEvent, next: u32, act: BuildAction) -> (r: (BuildState, BuildAction))
    ensures
        (r.0, r.1@) == after_run(ev@, next, act@),
{
    match ev {
        BuildEvent::Exited(c) => {
            if *c == 0 {
                (BuildState { step: next }, act)
            } else {
                (BuildState { step: DONE }, BuildAction::Fail(BuildError::Exited(*c)))
            }
        },
        BuildEvent::IoError => (BuildState { step: DONE }, BuildAction::Fail(BuildError::Io)),
        _ => (BuildState { step: DONE }, BuildAction::Fail(BuildError::Unexpected)),
    }
}

/// See [`after_done`].
fn next_after_done(ev: &BuildEvent, next: u32, act: BuildAction) -> (r: (BuildState, BuildAction))
    ensures
        (r.0, r.1@) == after_done(ev@, next, act@),
{
    match ev {
        BuildEvent::Done => (BuildState { step: next }, act),
        BuildEvent::IoError => (BuildState { step: DONE }, BuildAction::Fail(BuildError::Io)),
        _ => (BuildState { step: DONE }, BuildAction::Fail(BuildError::Unexpected)),
    }
}

/// The names of the candidates' source files, in order.
fn candidate_files(cands: &[Candidate]) -> (v: Vec<String>)
    ensures
        strs(v@) == files_of(cands@),
{
    let mut v: Vec<String> = Vec::new();
    let mut i: usize = 0;
    while i < cands.len()
        invariant
            i <= cands@.len(),
            strs(v@) =~= files_of(cands@).take(i as int),
        decreases cands.len() - i,
    {
        let f = cands[i].file.clone();
        let ghost prev = v@;
        v.push(f);
        assert(strs(v@) =~= strs(prev).push(cands@[i as int].file@));
        i = i + 1;
        assert(strs(v@) =~= files_of(cands@).take(i as int));
    }
    assert(files_of(cands@).take(cands@.len() as int) =~= files_of(cands@));
    v
}

/// One step of the build (see [`build_step_spec`]).
pub fn build_step(plan: &BuildPlan, st: &BuildState, ev: BuildEvent) -> (r: (BuildState, BuildAction))
    ensures
        (r.0, r.1@) == build_step_spec(plan@, *st, ev@),
{
    let n = st.step;
    if n == 0 {
        match ev {
            BuildEvent::Start => (BuildState { step: 1 }, BuildAction::Prepare),
            _ => (BuildState { step: DONE }, BuildAction::Fail(BuildError::Unexpected)),
        }
    } else if n == 1 {
        let args = compile_args(norebo_module_names().as_slice());
        next_after_done(&ev, 2, BuildAction::Run { args, cwd: Dir::Norebo, path: {
            let v = vec![Dir::Toolchain, Dir::Sources];
            assert(v@ =~= seq![Dir::Toolchain, Dir::Sources]);
            v
        } })
    } else if n == 2 {
        next_after_run(&ev, 3, BuildAction::Rename { dir: Dir::Norebo, from: Ext::Rsc, to: Ext::Rsx })
    } else if n == 3 {
        let args = command3("CoreLinker.LinkSerial", "Modules", "InnerCore");
        next_after_done(&ev, 4, BuildAction::Run { args, cwd: Dir::Norebo, path: {
            let v = vec![Dir::Toolchain];
            assert(v@ =~= seq![Dir::Toolchain]);
            v
        } })
    } else if n == 4 {
        next_after_run(&ev, 5, BuildAction::Rename { dir: Dir::Norebo, from: Ext::Rsx, to: Ext::Rsc })
    } else if n == 5 {
        next_after_done(&ev, 6, BuildAction::CheckGolden)
    } else if n == 6 {
        let args = compile_args(compiler_module_names().as_slice());
        next_after_done(&ev, 7, BuildAction::Run { args, cwd: Dir::Compiler, path: std_dirs() })
    } else if n == 7 {
        next_after_run(&ev, 8, BuildAction::Delete { dir: Dir::Norebo, ext: Ext::Smb })
    } else if n == 8 {
        next_after_done(&ev, 9, BuildAction::Delete { dir: Dir::Compiler, ext: Ext::Smb })
    } else if n == 9 {
        let args = compile_args(candidate_files(plan.candidates.as_slice()).as_slice());
        next_after_done(&ev, 10, BuildAction::Run { args, cwd: Dir::Oberon, path: std_dirs() })
    } else if n == 10 {
        next_after_run(&ev, 11, BuildAction::ListObjects)
    } else if n == 11 {
        match ev {
            BuildEvent::Objects(os) => match first_uncompiled(plan.candidates.as_slice(), os.as_slice()) {
                Some(i) => (BuildState { step: DONE }, BuildAction::Fail(BuildError::NotCompiled(i))),
                None => (BuildState { step: 12 }, BuildAction::Rename { dir: Dir::Oberon, from: Ext::Rsc, to: Ext::Rsx }),
            },
            BuildEvent::IoError => (BuildState { step: DONE }, BuildAction::Fail(BuildError::Io)),
            _ => (BuildState { step: DONE }, BuildAction::Fail(BuildError::Unexpected)),
        }
    } else if n == 12 {
        let args = command3("CoreLinker.LinkDisk", "Modules", "Oberon.dsk");
        next_after_done(&ev, 13, BuildAction::Run { args, cwd: Dir::Scratch, path: {
            let v = vec![Dir::Oberon, Dir::Norebo];
            assert(v@ =~= seq![Dir::Oberon, Dir::Norebo]);
            v
        } })
    } else if n == 13 {
        next_after_run(&ev, 14, BuildAction::ListInstall)
    } else if n == 14 {
        match ev {
            BuildEvent::Installables(rsx, smb) => {
                let args = install_args(plan.visible.as_slice(), rsx.as_slice(), smb.as_slice());
                (
                    BuildState { step: 15 },
                    BuildAction::Run { args, cwd: Dir::Scratch, path: {
            let v = vec![Dir::Oberon, Dir::Sources, Dir::Norebo];
            assert(v@ =~= seq![Dir::Oberon, Dir::Sources, Dir::Norebo]);
            v
        } },
                )
            },
            BuildEvent::IoError => (BuildState { step: DONE }, BuildAction::Fail(BuildError::Io)),
            _ => (BuildState { step: DONE }, BuildAction::Fail(BuildError::Unexpected)),
        }
    } else if n == 15 {
        next_after_run(&ev, DONE, BuildAction::Finish)
    } else {
        (BuildState { step: DONE }, BuildAction::Fail(BuildError::Unexpected))
    }
}

} // verus!
