use risc_core::resolve::{
    check_pack, compile_candidates, parse_header, topo_sort, Candidate, HeaderError, ResolveError,
    Resolver,
};

fn header(src: &str) -> (String, Vec<String>) {
    parse_header(src.as_bytes()).unwrap()
}

#[test]
fn header_reads_module_and_imports() {
    // SYSTEM dropped; alias `Q := Baz` resolves to its target `Baz`.
    let (m, imp) = header("MODULE Foo;\r IMPORT SYSTEM, Bar, Q := Baz;\r CONST x = 1;");
    assert_eq!(m, "Foo");
    assert_eq!(imp, ["Bar", "Baz"]);
}

#[test]
fn header_allows_export_marker_and_no_imports() {
    let (m, imp) = header("MODULE* Foo;\r END Foo.");
    assert_eq!(m, "Foo");
    assert!(imp.is_empty());
}

#[test]
fn header_skips_leading_and_nested_comments() {
    let (m, imp) = header("(* a (* nested *) c *) MODULE Foo; IMPORT Bar;");
    assert_eq!(m, "Foo");
    assert_eq!(imp, ["Bar"]);
}

#[test]
fn header_rejects_non_source() {
    assert!(parse_header(&[0, 1, 2, 3]).is_err()); // binary (a font)
    assert!(parse_header(b"not a module").is_err());
}

fn nodes(spec: &[(&str, &[&str])]) -> Vec<(String, Vec<String>)> {
    spec.iter()
        .map(|(n, deps)| {
            (
                n.to_string(),
                deps.iter().copied().map(String::from).collect(),
            )
        })
        .collect()
}

#[test]
fn topo_orders_dependencies_first() {
    // A imports B, B imports C  =>  C, B, A.
    let order = topo_sort(&nodes(&[("A", &["B"]), ("B", &["C"]), ("C", &[])])).unwrap();
    assert_eq!(order, ["C", "B", "A"]);
}

#[test]
fn topo_is_deterministic_and_ignores_outside_imports() {
    // Z isn't a node, so it's ignored; with no in-set edges, ties break by name.
    let order = topo_sort(&nodes(&[("B", &["Z"]), ("A", &[])])).unwrap();
    assert_eq!(order, ["A", "B"]);
}

#[test]
fn topo_detects_a_cycle() {
    assert!(topo_sort(&nodes(&[("A", &["B"]), ("B", &["A"])])).is_err());
}

#[test]
fn header_errors_name_what_went_wrong() {
    assert_eq!(parse_header(b"").err(), Some(HeaderError::NoModule));
    assert_eq!(
        parse_header(b"DEFINITION Foo;").err(),
        Some(HeaderError::NotModule("DEFINITION".to_string()))
    );
    assert_eq!(parse_header(b"MODULE ;").err(), Some(HeaderError::MissingName));
    assert_eq!(parse_header(b"MODULE Foo IMPORT").err(), Some(HeaderError::MissingSemicolon));
    assert_eq!(parse_header(b"MODULE Foo; IMPORT ;").err(), Some(HeaderError::MalformedImport));
    assert_eq!(parse_header(b"MODULE Foo; IMPORT Q := ;").err(), Some(HeaderError::MalformedAlias));
}

#[test]
fn every_module_comes_after_the_modules_it_imports() {
    let order = topo_sort(&nodes(&[
        ("Texts", &["Files", "Fonts"]),
        ("Fonts", &["Files"]),
        ("Files", &["Kernel"]),
        ("Kernel", &[]),
        ("Oberon", &["Texts", "Kernel"]),
    ]))
    .unwrap();
    assert_eq!(order, ["Kernel", "Files", "Fonts", "Texts", "Oberon"]);
}

#[test]
fn the_cycle_error_lists_the_modules_left() {
    let left = topo_sort(&nodes(&[("A", &["B"]), ("B", &["A"]), ("C", &[])])).err().unwrap();
    assert_eq!(left, ["A", "B"]);
}

fn strings(v: &[&str]) -> Vec<String> {
    v.iter().map(|s| s.to_string()).collect()
}

#[test]
fn pack_only_files_must_exist_and_are_not_compiled() {
    let visible = strings(&["A.Mod", "B.Mod", "Font.Fnt"]);
    assert_eq!(check_pack(&strings(&["Font.Fnt"]), &visible), Ok(()));
    assert_eq!(
        check_pack(&strings(&["Font.Fnt", "Gone.Fnt"]), &visible),
        Err(ResolveError::MissingPackOnly("Gone.Fnt".to_string()))
    );
    assert_eq!(compile_candidates(&strings(&["Font.Fnt"]), &visible), ["A.Mod", "B.Mod"]);
}

#[test]
fn the_resolver_orders_files_by_their_modules() {
    let mut r = Resolver::new();
    r.add_source("b.Mod".to_string(), b"MODULE B; IMPORT A;").unwrap();
    r.add_source("a.Mod".to_string(), b"MODULE A;").unwrap();
    let plan = r.finish().unwrap();
    assert_eq!(
        plan,
        vec![
            Candidate { file: "a.Mod".to_string(), module: "A".to_string() },
            Candidate { file: "b.Mod".to_string(), module: "B".to_string() },
        ]
    );
}

#[test]
fn the_resolver_refuses_duplicates_and_non_source() {
    let mut r = Resolver::new();
    r.add_source("a.Mod".to_string(), b"MODULE A;").unwrap();
    assert_eq!(
        r.add_source("a2.Mod".to_string(), b"MODULE A;"),
        Err(ResolveError::DuplicateModule("a.Mod".to_string(), "a2.Mod".to_string(), "A".to_string()))
    );
    assert_eq!(
        r.add_source("x.Fnt".to_string(), &[0, 1, 2]),
        Err(ResolveError::NotSource("x.Fnt".to_string(), HeaderError::NoModule))
    );
    r.add_source("b.Mod".to_string(), b"MODULE B; IMPORT C;").unwrap();
    r.add_source("c.Mod".to_string(), b"MODULE C; IMPORT B;").unwrap();
    assert_eq!(
        r.finish(),
        Err(ResolveError::Cycle(vec!["B".to_string(), "C".to_string()]))
    );
}
