use risc_core::extract::{dispositions, is_compiled, Disposition};

fn strings(v: &[&str]) -> Vec<String> {
    v.iter().map(|s| s.to_string()).collect()
}

#[test]
fn compiled_artifacts_are_recognised_by_extension() {
    assert!(is_compiled("Kernel.rsc"));
    assert!(is_compiled("Kernel.smb"));
    assert!(!is_compiled("Kernel.Mod"));
    assert!(!is_compiled("rsc"));
    assert!(!is_compiled(".rsc")); // a hidden file, no extension
}

#[test]
fn sources_with_objects_compile_and_the_rest_is_packed() {
    let names = strings(&["A.Mod", "A.rsc", "A.smb", "B.Mod", "Font.Fnt"]);
    assert_eq!(
        dispositions(&names, false),
        vec![
            Disposition::Source,
            Disposition::Skip,
            Disposition::Skip,
            Disposition::PackOnly,
            Disposition::PackOnly,
        ]
    );
    assert_eq!(dispositions(&names, true)[1], Disposition::Object);
}
