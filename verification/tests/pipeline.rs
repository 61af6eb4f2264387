use risc_core::pipeline::{
    build_step, compile_args, first_uncompiled, install_args, BuildAction, BuildError, BuildEvent, BuildPlan,
    BuildState, Dir, Ext, DONE,
};
use risc_core::resolve::{parse_packonly, Candidate};

fn s(v: &[&str]) -> Vec<String> {
    v.iter().map(|x| x.to_string()).collect()
}

fn cand(file: &str, module: &str) -> Candidate {
    Candidate { file: file.to_string(), module: module.to_string() }
}

fn plan() -> BuildPlan {
    BuildPlan {
        candidates: vec![cand("Kernel.Mod", "Kernel"), cand("Display.Orig.Mod", "Display")],
        visible: s(&["Display.Orig.Mod", "Kernel.Mod", "Oberon10.Scn.Fnt"]),
    }
}

#[test]
fn compile_args_mark_every_module_strict() {
    assert_eq!(
        compile_args(&s(&["A.Mod", "B.Mod"])),
        s(&["ORP.Compile", "A.Mod/s", "B.Mod/s"])
    );
    assert_eq!(compile_args(&[]), s(&["ORP.Compile"]));
}

#[test]
fn install_args_map_objects_back_to_rsc() {
    assert_eq!(
        install_args(&s(&["Kernel.Mod", "Oberon10.Scn.Fnt"]), &s(&["Kernel.rsx"]), &s(&["Kernel.smb"])),
        s(&[
            "VDiskUtil.InstallFiles",
            "Oberon.dsk",
            "Kernel.Mod=>Kernel.Mod",
            "Oberon10.Scn.Fnt=>Oberon10.Scn.Fnt",
            "Kernel.rsx=>Kernel.rsc",
            "Kernel.smb=>Kernel.smb",
        ])
    );
}

#[test]
fn first_uncompiled_names_the_first_module_without_an_object() {
    let p = plan();
    assert_eq!(first_uncompiled(&p.candidates, &s(&["Display.rsc", "Kernel.rsc"])), None);
    assert_eq!(first_uncompiled(&p.candidates, &s(&["Kernel.rsc"])), Some(1));
    assert_eq!(first_uncompiled(&p.candidates, &s(&["Display.Orig.rsc"])), Some(0));
}

/// The arguments of a `Run` action.
fn run_args(a: &BuildAction) -> (Vec<String>, Dir, Vec<Dir>) {
    match a {
        BuildAction::Run { args, cwd, path } => (args.clone(), *cwd, path.clone()),
        _ => panic!("not a run"),
    }
}

#[test]
fn build_runs_the_whole_script_in_order() {
    let p = plan();
    let mut st = BuildState { step: 0 };
    let (n, a) = build_step(&p, &st, BuildEvent::Start);
    assert!(matches!(a, BuildAction::Prepare));
    st = n;
    let (n, a) = build_step(&p, &st, BuildEvent::Done);
    let (args, cwd, path) = run_args(&a);
    assert_eq!(args.len(), 19);
    assert_eq!(args[1], "Norebo.Mod/s");
    assert_eq!((cwd, path), (Dir::Norebo, vec![Dir::Toolchain, Dir::Sources]));
    st = n;
    let (n, a) = build_step(&p, &st, BuildEvent::Exited(0));
    assert!(matches!(a, BuildAction::Rename { dir: Dir::Norebo, from: Ext::Rsc, to: Ext::Rsx }));
    st = n;
    let (n, a) = build_step(&p, &st, BuildEvent::Done);
    assert_eq!(run_args(&a).0, s(&["CoreLinker.LinkSerial", "Modules", "InnerCore"]));
    st = n;
    let (n, a) = build_step(&p, &st, BuildEvent::Exited(0));
    assert!(matches!(a, BuildAction::Rename { dir: Dir::Norebo, from: Ext::Rsx, to: Ext::Rsc }));
    st = n;
    let (n, a) = build_step(&p, &st, BuildEvent::Done);
    assert!(matches!(a, BuildAction::CheckGolden));
    st = n;
    let (n, a) = build_step(&p, &st, BuildEvent::Done);
    assert_eq!(run_args(&a), (s(&["ORP.Compile", "ORS.Mod/s", "ORB.Mod/s", "ORG.Mod/s", "ORP.Mod/s"]), Dir::Compiler, vec![Dir::Sources, Dir::Compiler, Dir::Norebo]));
    st = n;
    // Step 7 follows the cross-compiler's run.
    assert_eq!(st.step, 7);
    let (n, a) = build_step(&p, &st, BuildEvent::Exited(0));
    assert!(matches!(a, BuildAction::Delete { dir: Dir::Norebo, ext: Ext::Smb }));
    st = n;
    let (n, _) = build_step(&p, &st, BuildEvent::Done);
    st = n;
    let (n, a) = build_step(&p, &st, BuildEvent::Done);
    assert_eq!(run_args(&a).0, s(&["ORP.Compile", "Kernel.Mod/s", "Display.Orig.Mod/s"]));
    assert_eq!(run_args(&a).1, Dir::Oberon);
    st = n;
    let (n, a) = build_step(&p, &st, BuildEvent::Exited(0));
    assert!(matches!(a, BuildAction::ListObjects));
    st = n;
    let (n, a) = build_step(&p, &st, BuildEvent::Objects(s(&["Display.rsc", "Kernel.rsc"])));
    assert!(matches!(a, BuildAction::Rename { dir: Dir::Oberon, from: Ext::Rsc, to: Ext::Rsx }));
    st = n;
    let (n, a) = build_step(&p, &st, BuildEvent::Done);
    assert_eq!(run_args(&a).0, s(&["CoreLinker.LinkDisk", "Modules", "Oberon.dsk"]));
    st = n;
    let (n, a) = build_step(&p, &st, BuildEvent::Exited(0));
    assert!(matches!(a, BuildAction::ListInstall));
    st = n;
    let (n, a) = build_step(&p, &st, BuildEvent::Installables(s(&["Kernel.rsx"]), vec![]));
    let (args, cwd, path) = run_args(&a);
    assert_eq!(args[0], "VDiskUtil.InstallFiles");
    assert_eq!(args.last().unwrap(), "Kernel.rsx=>Kernel.rsc");
    assert_eq!((cwd, path), (Dir::Scratch, vec![Dir::Oberon, Dir::Sources, Dir::Norebo]));
    st = n;
    let (n, a) = build_step(&p, &st, BuildEvent::Exited(0));
    assert!(matches!(a, BuildAction::Finish));
    assert_eq!(n.step, DONE);
}

#[test]
fn build_fails_on_a_nonzero_exit_or_a_missing_object() {
    let p = plan();
    let (n, a) = build_step(&p, &BuildState { step: 2 }, BuildEvent::Exited(3));
    assert!(matches!(a, BuildAction::Fail(BuildError::Exited(3))));
    assert_eq!(n.step, DONE);
    let (_, a) = build_step(&p, &BuildState { step: 11 }, BuildEvent::Objects(s(&["Kernel.rsc"])));
    assert!(matches!(a, BuildAction::Fail(BuildError::NotCompiled(1))));
    let (_, a) = build_step(&p, &BuildState { step: 5 }, BuildEvent::IoError);
    assert!(matches!(a, BuildAction::Fail(BuildError::Io)));
    let (_, a) = build_step(&p, &BuildState { step: 1 }, BuildEvent::Exited(0));
    assert!(matches!(a, BuildAction::Fail(BuildError::Unexpected)));
}

#[test]
fn packonly_lists_trimmed_names_without_blanks_or_comments() {
    let text = "# data files\nOberon10.Scn.Fnt\r\n\n  Draw.Tool  \n#Kernel.Mod\nSys.Mod";
    assert_eq!(parse_packonly(text), s(&["Oberon10.Scn.Fnt", "Draw.Tool", "Sys.Mod"]));
    assert!(parse_packonly("").is_empty());
}

#[test]
fn seed_checks_the_fresh_inner_core_byte_for_byte() {
    let seed = risc_core::pipeline::Seed {
        toolchain: vec![("Kernel.Mod".to_string(), b"MODULE Kernel;".to_vec())],
        golden_inner_core: vec![1, 2, 3],
        name: "build-image".to_string(),
    };
    assert!(seed.reproduces_golden(&[1, 2, 3]));
    assert!(!seed.reproduces_golden(&[1, 2, 4]));
    assert!(!seed.reproduces_golden(&[1, 2]));
}
