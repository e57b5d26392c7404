use lib::ast::{Expr, Id, Inst};
use lib::link::{link, Linker};
use lib::NyoomError;

fn set(n: u16, v: u32) -> Inst {
    Inst::SetVar(Id::NyNy(n), Expr::Int(v))
}

fn import(name: &str) -> Inst {
    Inst::Import(String::from(name))
}

// `nugget nyoom nugget nugget nyoom nyoom I`: variable 1 gets 2
const FILE_A: &[u8] = b"nugget nyoom nugget nugget nyoom nyoom I //\n";

#[test]
fn an_import_is_replaced_by_the_file() {
    let mut linker = Linker::new(vec![set(5, 1), import("nyoom.nyny"), set(6, 1)], Vec::new());
    let asked = link(&mut linker);
    assert_eq!(asked.as_deref(), Some("nyoom.nyny"));
    let parse_error = linker.supply(asked.unwrap(), FILE_A.to_vec()).unwrap();
    assert!(parse_error.is_none());
    assert!(link(&mut linker).is_none());
    let ast = linker.finish();
    assert_eq!(
        format!("{:?}", ast),
        "[SetVar(NyNy(5), Int(1)), SetVar(NyNy(1), Int(2)), SetVar(NyNy(6), Int(1))]"
    );
}

#[test]
fn a_file_is_linked_once() {
    let mut linker = Linker::new(vec![import("nyoom.nyny"), import("nyoom.nyny")], Vec::new());
    let asked = link(&mut linker).unwrap();
    linker.supply(asked, FILE_A.to_vec()).unwrap();
    assert!(link(&mut linker).is_none());
    assert_eq!(format!("{:?}", linker.finish()), "[SetVar(NyNy(1), Int(2))]");
}

#[test]
fn files_linked_already_are_skipped() {
    let mut linker = Linker::new(vec![import("nyoom.nyny"), set(1, 1)], vec![String::from("nyoom.nyny")]);
    assert!(link(&mut linker).is_none());
    assert_eq!(format!("{:?}", linker.finish()), "[SetVar(NyNy(1), Int(1))]");
}

#[test]
fn imports_inside_an_imported_file_are_linked_first() {
    // the imported file imports `nyoom-nyoom.nyny`, then sets variable 1
    let file_b: &[u8] = b"nyoom nyoom nugget nyoom nyoom I //\nnugget nyoom nugget nugget nyoom I //\n";
    let mut linker = Linker::new(vec![import("nyoom.nyny"), set(9, 1)], Vec::new());
    let first = link(&mut linker).unwrap();
    assert_eq!(first, "nyoom.nyny");
    linker.supply(first, file_b.to_vec()).unwrap();
    let second = link(&mut linker).unwrap();
    assert_eq!(second, "nyoom-nyoom.nyny");
    linker.supply(second, FILE_A.to_vec()).unwrap();
    assert!(link(&mut linker).is_none());
    assert_eq!(
        format!("{:?}", linker.finish()),
        "[SetVar(NyNy(1), Int(2)), SetVar(NyNy(1), Int(1)), SetVar(NyNy(9), Int(1))]"
    );
}

#[test]
fn a_scan_error_in_a_file_ends_the_linking() {
    let mut linker = Linker::new(vec![import("nyoom.nyny")], Vec::new());
    let asked = link(&mut linker).unwrap();
    match linker.supply(asked, b"hello //\n".to_vec()) {
        Err(NyoomError::CompileError(msg, 0)) => assert_eq!(msg, "Invalid token"),
        other => panic!("unexpected {:?}", other),
    }
}

#[test]
fn a_parse_error_in_a_file_is_reported_and_the_rest_kept() {
    let mut linker = Linker::new(vec![import("nyoom.nyny")], Vec::new());
    let asked = link(&mut linker).unwrap();
    let bytes = b"nugget nyoom nugget nugget nyoom I I //\n".to_vec();
    match linker.supply(asked, bytes) {
        Ok(Some(NyoomError::CompileError(msg, 0))) => assert_eq!(msg, "Nothing to split"),
        other => panic!("unexpected {:?}", other),
    }
    assert!(link(&mut linker).is_none());
    assert_eq!(format!("{:?}", linker.finish()), "[SetVar(NyNy(1), Int(1))]");
}

#[test]
fn the_linker_keeps_the_names_it_linked() {
    let mut linker = Linker::new(vec![import("nyoom.nyny")], vec![String::from("x")]);
    let asked = link(&mut linker).unwrap();
    linker.supply(asked, FILE_A.to_vec()).unwrap();
    assert_eq!(linker.linked(), &vec![String::from("x"), String::from("nyoom.nyny")]);
}

#[test]
fn a_cycle_of_imports_ends() {
    // the file imports itself: `nyoom nyoom nugget nyoom I` names `nyoom.nyny`
    let file: &[u8] = b"nyoom nyoom nugget nyoom I\nnugget nyoom nugget nugget nyoom nyoom I\n";
    let mut linker = Linker::new(vec![import("nyoom.nyny")], Vec::new());
    let asked = link(&mut linker).unwrap();
    assert_eq!(asked, "nyoom.nyny");
    assert!(linker.supply(asked, file.to_vec()).unwrap().is_none());
    assert!(link(&mut linker).is_none());
    assert_eq!(linker.linked().len(), 1);
    assert_eq!(format!("{:?}", linker.finish()), "[SetVar(NyNy(1), Int(2))]");
}
