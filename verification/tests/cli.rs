use packsmith::cli::{default_output, parse_build_args, run, Action, USAGE};

fn argv(args: &[&str]) -> Vec<String> {
    args.iter().map(|s| s.to_string()).collect()
}

#[test]
fn build_requires_project_and_target() {
    assert!(parse_build_args(&argv(&[])).is_err());
    assert!(parse_build_args(&argv(&["proj"])).is_err());
    assert!(parse_build_args(&argv(&["--target", "26.2"])).is_err());
    assert!(parse_build_args(&argv(&["--target"])).is_err());
}

#[test]
fn build_accepts_options_in_any_order() {
    let a = parse_build_args(&argv(&["proj", "--target", "26.2"])).unwrap();
    assert_eq!((a.project.as_str(), a.target.as_str()), ("proj", "26.2"));
    assert!(a.output.is_none());

    let a = parse_build_args(&argv(&["--target=26.2", "--output=out.zip", "proj"])).unwrap();
    assert_eq!((a.project.as_str(), a.target.as_str(), a.output.as_deref()), ("proj", "26.2", Some("out.zip")));
}

#[test]
fn unknown_command_is_rejected() {
    assert!(run(&argv(&["frobnicate"])).is_err());
}

#[test]
fn help_and_version_succeed() {
    assert!(run(&argv(&["--help"])).is_ok());
    assert!(run(&argv(&["--version"])).is_ok());
    assert!(run(&argv(&[])).is_ok());
}

#[test]
fn build_errors_name_the_problem_and_show_the_usage() {
    let e = parse_build_args(&argv(&["proj"])).err().unwrap();
    assert_eq!(
        e,
        "packsmith build: missing --target <version>\n\nusage: packsmith build <project> --target <version> [--output <file>]"
    );
    let e = parse_build_args(&argv(&["proj", "--frob"])).err().unwrap();
    assert!(e.starts_with("packsmith build: unknown option '--frob'\n\n"));
    let e = parse_build_args(&argv(&["a", "b", "--target", "x"])).err().unwrap();
    assert!(e.starts_with("packsmith build: unexpected extra argument 'b'"));
    let e = parse_build_args(&argv(&["a", "--output"])).err().unwrap();
    assert!(e.starts_with("packsmith build: --output needs a value"));
}

#[test]
fn run_says_what_to_do() {
    match run(&argv(&["--version"])).unwrap() {
        Action::Print(text) => assert_eq!(text, "packsmith 0.1.0\n"),
        Action::Build(_) => panic!("not a build"),
    }
    match run(&argv(&["-h"])).unwrap() {
        Action::Print(text) => assert_eq!(text, USAGE),
        Action::Build(_) => panic!("not a build"),
    }
    match run(&argv(&["build", "proj", "--target", "26.2", "--output", "x.zip"])).unwrap() {
        Action::Build(b) => {
            assert_eq!(b.project, "proj");
            assert_eq!(b.output.as_deref(), Some("x.zip"));
        }
        Action::Print(_) => panic!("a build"),
    }
    let e = run(&argv(&["frobnicate"])).err().unwrap();
    assert!(e.starts_with("packsmith: unknown command 'frobnicate'\n\n"));
}

#[test]
fn the_default_output_is_named_after_the_graph_file() {
    assert_eq!(default_output("projects/demo/graph.json"), "graph.zip");
    assert_eq!(default_output("my-pack.json"), "my-pack.zip");
    assert_eq!(default_output("/"), "pack.zip");
}

#[test]
fn the_default_output_of_a_project_directory_is_named_after_it() {
    assert_eq!(default_output("projects/castle"), "castle.zip");
    assert_eq!(default_output("projects/castle/"), "castle.zip");
}
