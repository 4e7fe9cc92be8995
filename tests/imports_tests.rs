use wheelc::ast::{Program, Stmt};
use wheelc::imports::{import_file_name, ImportAction, ImportResolver};
use wheelc::parser::Parser;
use wheelc::text::TextList;

fn resolve(main_src: &str, files: &[(&str, &str)]) -> (Program, Vec<String>) {
    let mut p = Parser::new(main_src);
    let prog = p.parse_program();
    let mut r = ImportResolver::new(prog, "/proj".to_string(), TextList::new());
    let mut asked = Vec::new();
    loop {
        match r.step() {
            ImportAction::Done => break,
            ImportAction::Load { base, file } => {
                let full = format!("{}/{}", base, file);
                asked.push(full.clone());
                let found = files
                    .iter()
                    .find(|(n, _)| *n == full)
                    .map(|(_, s)| (Parser::new(s).parse_program(), base.clone()));
                r.supply(found);
            }
        }
    }
    (r.finish(), asked)
}

fn let_names(p: &Program) -> Vec<String> {
    p.items
        .iter()
        .map(|s| match s {
            Stmt::Let { name, .. } => name.clone(),
            other => panic!("unexpected {:?}", other),
        })
        .collect()
}

#[test]
fn imported_statements_come_first() {
    let files = [("/proj/b.wheel", "import \"c\"; let b = 2;"), ("/proj/c.wheel", "let c = 3;")];
    let (prog, asked) = resolve("import \"b\"; let a = 1;", &files);
    assert_eq!(let_names(&prog), vec!["c", "b", "a"]);
    assert_eq!(asked, vec!["/proj/b.wheel", "/proj/c.wheel"]);
}

#[test]
fn a_path_is_included_once() {
    let files = [("/proj/b.wheel", "import \"c\"; let b = 2;"), ("/proj/c.wheel", "let c = 3;")];
    let (prog, asked) = resolve("import \"b\"; import \"c\"; import \"b\"; let a = 1;", &files);
    assert_eq!(let_names(&prog), vec!["c", "b", "a"]);
    assert_eq!(asked.len(), 2);
}

#[test]
fn cycles_end() {
    let files = [("/proj/x.wheel", "import \"y\"; let x = 1;"), ("/proj/y.wheel", "import \"x\"; let y = 2;")];
    let (prog, _) = resolve("import \"x\"; let m = 0;", &files);
    assert_eq!(let_names(&prog), vec!["y", "x", "m"]);
}

#[test]
fn missing_files_are_ignored() {
    let (prog, asked) = resolve("import \"nowhere\"; let a = 1;", &[]);
    assert_eq!(let_names(&prog), vec!["a"]);
    assert_eq!(asked, vec!["/proj/nowhere.wheel"]);
}

#[test]
fn extension_is_added_once() {
    assert_eq!(import_file_name(&"lib".to_string()), "lib.wheel");
    assert_eq!(import_file_name(&"lib.wheel".to_string()), "lib.wheel");
    assert_eq!(import_file_name(&"wheel".to_string()), "wheel.wheel");
}

#[test]
fn import_depth_is_bounded() {
    let mut files: Vec<(String, String)> = Vec::new();
    for i in 0..100 {
        files.push((format!("/proj/f{}.wheel", i), format!("import \"f{}\"; let v{} = {};", i + 1, i, i)));
    }
    let refs: Vec<(&str, &str)> = files.iter().map(|(a, b)| (a.as_str(), b.as_str())).collect();
    let (prog, asked) = resolve("import \"f0\"; let m = 0;", &refs);
    assert!(asked.len() < 100);
    assert_eq!(let_names(&prog).last().unwrap(), "m");
}

#[test]
fn processed_paths_are_handed_back() {
    let mut p = Parser::new("import \"b\"; import \"c\";");
    let prog = p.parse_program();
    let mut r = ImportResolver::new(prog, "/proj".to_string(), TextList::new());
    loop {
        match r.step() {
            ImportAction::Done => break,
            ImportAction::Load { .. } => r.supply(None),
        }
    }
    let done = r.processed_paths();
    assert_eq!(done.len(), 2);
    assert!(done.contains(&"b".to_string()));
    assert!(done.contains(&"c".to_string()));
}
