// Scenario tests for the preprocessor driver: conditional chains,
// inclusions, the origin map, and the macro table.

use sv_parser_pp::defines::Defines;
use sv_parser_pp::driver::preprocess;
use sv_parser_pp::text::PreprocessedText;
use sv_parser_pp::tree::{CompilationUnit, ElsifArm, Event, PpError, SourceUnit};

// A source file in the style the driver sees after parsing: the byte
// text and the flattened directive events.
fn unit(path: &str, src: &str, events: Vec<Event>) -> SourceUnit {
    SourceUnit { path: path.as_bytes().to_vec(), src: src.as_bytes().to_vec(), events }
}

fn single(path: &str, src: &str, events: Vec<Event>) -> CompilationUnit {
    CompilationUnit { units: vec![unit(path, src, events)], root: 0 }
}

fn no_defines() -> Defines {
    Defines::new()
}

fn one_define(name: &str) -> Defines {
    let mut d = Defines::new();
    d.insert(name.as_bytes().to_vec());
    d
}

fn cond(id: &str, first_body: u32, elsifs: Vec<ElsifArm>, else_body: Option<u32>) -> Event {
    Event::Cond {
        inverted: false,
        first_id: id.as_bytes().to_vec(),
        first_body,
        elsifs,
        else_body,
    }
}

fn ncond(id: &str, first_body: u32, elsifs: Vec<ElsifArm>, else_body: Option<u32>) -> Event {
    Event::Cond {
        inverted: true,
        first_id: id.as_bytes().to_vec(),
        first_body,
        elsifs,
        else_body,
    }
}

// The test1.sv scenario: an `ifdef behavioral` / `else` / `endif` block
// between a module header and its closing line.
//
// Byte layout of TEST1_SRC:
//   [0,48)    module header and port lines
//   [48,66)   the `ifdef` line
//   [66,82)   "wire a = b & c;\n"   (first body)
//   [82,88)   the `else` line
//   [88,104)  "and a1 (a,b,c);\n"   (else body)
//   [104,111) the `endif` line
//   [111,121) "endmodule\n"
const TEST1_SRC: &str = "module and_op (a, b, c);\noutput a;\ninput b, c;\n\n`ifdef behavioral\nwire a = b & c;\n`else\nand a1 (a,b,c);\n`endif\nendmodule\n";

fn test1_events() -> Vec<Event> {
    vec![
        Event::SourceText { begin: 0, end: 48 },
        cond("behavioral", 1, vec![], Some(2)),
        Event::BodyEnter { body: 1 },
        Event::SourceText { begin: 66, end: 82 },
        Event::BodyLeave { body: 1 },
        Event::BodyEnter { body: 2 },
        Event::SourceText { begin: 88, end: 104 },
        Event::BodyLeave { body: 2 },
        Event::SourceText { begin: 111, end: 121 },
    ]
}

fn origin_of(t: &PreprocessedText, pos: usize) -> (String, usize) {
    let (path, off) = t.origin(pos).unwrap();
    (String::from_utf8(path).unwrap(), off)
}

#[test]
fn test1() {
    let cu = single("test1.sv", TEST1_SRC, test1_events());
    let ret = preprocess(&cu, &no_defines()).unwrap();
    assert_eq!(
        ret.text().as_slice(),
        b"module and_op (a, b, c);\noutput a;\ninput b, c;\n\nand a1 (a,b,c);\nendmodule\n"
            .as_slice()
    );
    assert_eq!(origin_of(&ret, 10), (String::from("test1.sv"), 10));
    assert_eq!(origin_of(&ret, 50), (String::from("test1.sv"), 90));
    assert_eq!(origin_of(&ret, 70), (String::from("test1.sv"), 117));
}

#[test]
fn test1_predefine() {
    let cu = single("test1.sv", TEST1_SRC, test1_events());
    let ret = preprocess(&cu, &one_define("behavioral")).unwrap();
    assert_eq!(
        ret.text().as_slice(),
        b"module and_op (a, b, c);\noutput a;\ninput b, c;\n\nwire a = b & c;\nendmodule\n"
            .as_slice()
    );
}

// The test2.sv scenario: the same module, its middle line brought in
// from test3.sv through an inclusion directive.
//
// Byte layout of TEST2_SRC:
//   [0,48)   module header and port lines
//   [48,68)  the inclusion line
//   [68,78)  "endmodule\n"
const TEST2_SRC: &str =
    "module and_op (a, b, c);\noutput a;\ninput b, c;\n\n// see: test3.sv //\nendmodule\n";

const TEST3_SRC: &str = "and a1 (a,b,c);\n";

#[test]
fn test2() {
    let cu = CompilationUnit {
        units: vec![
            unit(
                "test2.sv",
                TEST2_SRC,
                vec![
                    Event::SourceText { begin: 0, end: 48 },
                    Event::Inclusion {
                        filename: b"test3.sv".to_vec(),
                        loaded: Ok(1),
                    },
                    Event::SourceText { begin: 68, end: 78 },
                ],
            ),
            unit("test3.sv", TEST3_SRC, vec![Event::SourceText { begin: 0, end: 16 }]),
        ],
        root: 0,
    };
    let ret = preprocess(&cu, &no_defines()).unwrap();
    assert_eq!(
        ret.text().as_slice(),
        b"module and_op (a, b, c);\noutput a;\ninput b, c;\n\nand a1 (a,b,c);\nendmodule\n"
            .as_slice()
    );
    assert_eq!(origin_of(&ret, 10), (String::from("test2.sv"), 10));
    assert_eq!(origin_of(&ret, 50), (String::from("test3.sv"), 2));
    assert_eq!(origin_of(&ret, 70), (String::from("test2.sv"), 74));
}

// A file with no directives at all round-trips: the output equals the
// source and every position maps to itself.
#[test]
fn round_trip_no_directives() {
    let src = "wire w;\nassign w = 1;\n";
    let cu = single("plain.sv", src, vec![Event::SourceText { begin: 0, end: 22 }]);
    let ret = preprocess(&cu, &no_defines()).unwrap();
    assert_eq!(ret.text().as_slice(), src.as_bytes());
    for p in 0..src.len() {
        assert_eq!(origin_of(&ret, p), (String::from("plain.sv"), p));
    }
    assert_eq!(ret.origin(src.len()), None);
}

// `define A` followed by `resetall` leaves A undefined for the test
// that follows.
#[test]
fn reset_forgets_defines() {
    let src = "X\n";
    let cu = single(
        "reset.sv",
        src,
        vec![
            Event::Define { name: b"A".to_vec() },
            Event::ResetAll,
            cond("A", 1, vec![], None),
            Event::BodyEnter { body: 1 },
            Event::SourceText { begin: 0, end: 2 },
            Event::BodyLeave { body: 1 },
        ],
    );
    let ret = preprocess(&cu, &no_defines()).unwrap();
    assert_eq!(ret.text().as_slice(), b"".as_slice());
}

// `undefineall` behaves like `resetall` for conditional tests.
#[test]
fn undefineall_forgets_defines() {
    let src = "X\n";
    let cu = single(
        "undefall.sv",
        src,
        vec![
            Event::Define { name: b"A".to_vec() },
            Event::UndefineAll,
            cond("A", 1, vec![], None),
            Event::BodyEnter { body: 1 },
            Event::SourceText { begin: 0, end: 2 },
            Event::BodyLeave { body: 1 },
        ],
    );
    let ret = preprocess(&cu, &no_defines()).unwrap();
    assert_eq!(ret.text().as_slice(), b"".as_slice());
}

// An inner `ifndef B` nested in an outer `ifdef A` emits its body
// exactly when A is defined and B is not.
fn nested_output(defines: &Defines) -> Vec<u8> {
    let src = "inner\n";
    let cu = single(
        "nested.sv",
        src,
        vec![
            cond("A", 1, vec![], None),
            Event::BodyEnter { body: 1 },
            ncond("B", 2, vec![], None),
            Event::BodyEnter { body: 2 },
            Event::SourceText { begin: 0, end: 6 },
            Event::BodyLeave { body: 2 },
            Event::BodyLeave { body: 1 },
        ],
    );
    preprocess(&cu, defines).unwrap().text().clone()
}

#[test]
fn nested_conditionals() {
    let mut a_and_b = Defines::new();
    a_and_b.insert(b"A".to_vec());
    a_and_b.insert(b"B".to_vec());
    assert_eq!(nested_output(&no_defines()), b"".to_vec());
    assert_eq!(nested_output(&one_define("A")), b"inner\n".to_vec());
    assert_eq!(nested_output(&one_define("B")), b"".to_vec());
    assert_eq!(nested_output(&a_and_b), b"".to_vec());
}

// An `elsif` chain takes the first arm whose name is defined, and the
// `else` body only when no arm hit.
fn chain_unit() -> CompilationUnit {
    // src layout: "a\n" [0,2), "b\n" [2,4), "c\n" [4,6), "d\n" [6,8)
    single(
        "chain.sv",
        "a\nb\nc\nd\n",
        vec![
            cond(
                "P",
                1,
                vec![
                    ElsifArm { id: b"Q".to_vec(), body: 2 },
                    ElsifArm { id: b"R".to_vec(), body: 3 },
                ],
                Some(4),
            ),
            Event::BodyEnter { body: 1 },
            Event::SourceText { begin: 0, end: 2 },
            Event::BodyLeave { body: 1 },
            Event::BodyEnter { body: 2 },
            Event::SourceText { begin: 2, end: 4 },
            Event::BodyLeave { body: 2 },
            Event::BodyEnter { body: 3 },
            Event::SourceText { begin: 4, end: 6 },
            Event::BodyLeave { body: 3 },
            Event::BodyEnter { body: 4 },
            Event::SourceText { begin: 6, end: 8 },
            Event::BodyLeave { body: 4 },
        ],
    )
}

#[test]
fn elsif_chain_takes_first_hit() {
    let cu = chain_unit();
    let mut q_and_r = Defines::new();
    q_and_r.insert(b"Q".to_vec());
    q_and_r.insert(b"R".to_vec());
    assert_eq!(preprocess(&cu, &one_define("P")).unwrap().text().as_slice(), b"a\n");
    assert_eq!(preprocess(&cu, &one_define("Q")).unwrap().text().as_slice(), b"b\n");
    assert_eq!(preprocess(&cu, &one_define("R")).unwrap().text().as_slice(), b"c\n");
    assert_eq!(preprocess(&cu, &q_and_r).unwrap().text().as_slice(), b"b\n");
    assert_eq!(preprocess(&cu, &no_defines()).unwrap().text().as_slice(), b"d\n");
}

// Table directives act on later conditional tests only; bytes already
// emitted stay as they were.
#[test]
fn defines_act_forward() {
    // src layout: "head\n" [0,5), "one\n" [5,9), "two\n" [9,13)
    let src = "head\none\ntwo\n";
    let cu = single(
        "forward.sv",
        src,
        vec![
            Event::SourceText { begin: 0, end: 5 },
            Event::Define { name: b"A".to_vec() },
            cond("A", 1, vec![], None),
            Event::BodyEnter { body: 1 },
            Event::SourceText { begin: 5, end: 9 },
            Event::BodyLeave { body: 1 },
            Event::Undefine { name: b"A".to_vec() },
            cond("A", 2, vec![], None),
            Event::BodyEnter { body: 2 },
            Event::SourceText { begin: 9, end: 13 },
            Event::BodyLeave { body: 2 },
        ],
    );
    let ret = preprocess(&cu, &no_defines()).unwrap();
    assert_eq!(ret.text().as_slice(), b"head\none\n".as_slice());
}

// Reading one byte at the origin a lookup identifies gives back the
// byte the output holds at the looked-up position.
#[test]
fn origin_reads_back_source_byte() {
    let sources: Vec<(&str, &str)> = vec![("test1.sv", TEST1_SRC), ("test2.sv", TEST2_SRC), (
        "test3.sv",
        TEST3_SRC,
    )];
    let cu = CompilationUnit {
        units: vec![
            unit(
                "test2.sv",
                TEST2_SRC,
                vec![
                    Event::SourceText { begin: 0, end: 48 },
                    Event::Inclusion { filename: b"test3.sv".to_vec(), loaded: Ok(1) },
                    Event::SourceText { begin: 68, end: 78 },
                ],
            ),
            unit("test3.sv", TEST3_SRC, vec![Event::SourceText { begin: 0, end: 16 }]),
        ],
        root: 0,
    };
    let ret = preprocess(&cu, &no_defines()).unwrap();
    for p in 0..ret.text().len() {
        let (path, q) = origin_of(&ret, p);
        let (_, src) = sources.iter().find(|(n, _)| *n == path).unwrap();
        assert_eq!(src.as_bytes()[q], ret.text()[p]);
    }
}

// Two runs over the same inputs give byte-equal text and agreeing
// origins.
#[test]
fn runs_agree() {
    let cu = single("test1.sv", TEST1_SRC, test1_events());
    let a = preprocess(&cu, &no_defines()).unwrap();
    let b = preprocess(&cu, &no_defines()).unwrap();
    assert_eq!(a.text(), b.text());
    for p in 0..a.text().len() + 1 {
        assert_eq!(a.origin(p), b.origin(p));
    }
}

// Names defined inside a file brought in by an inclusion do not flow
// back to the file whose directive brought it in.
#[test]
fn inner_defines_do_not_escape() {
    let cu = CompilationUnit {
        units: vec![
            unit(
                "outer.sv",
                "kept\n",
                vec![
                    Event::Inclusion { filename: b"inner.sv".to_vec(), loaded: Ok(1) },
                    cond("A", 1, vec![], None),
                    Event::BodyEnter { body: 1 },
                    Event::SourceText { begin: 0, end: 5 },
                    Event::BodyLeave { body: 1 },
                ],
            ),
            unit("inner.sv", "", vec![Event::Define { name: b"A".to_vec() }]),
        ],
        root: 0,
    };
    let ret = preprocess(&cu, &no_defines()).unwrap();
    assert_eq!(ret.text().as_slice(), b"".as_slice());
}

// A failed inclusion surfaces its error only if it is executed; inside
// a not-taken branch it stays silent.
#[test]
fn failed_inclusion_error_only_when_taken() {
    let events = |body: u32| {
        vec![
            cond("USE_MISSING", body, vec![], None),
            Event::BodyEnter { body },
            Event::Inclusion {
                filename: b"missing.svh".to_vec(),
                loaded: Err(PpError::FileNotFound { filename: b"missing.svh".to_vec() }),
            },
            Event::BodyLeave { body },
        ]
    };
    let cu = single("root.sv", "", events(1));
    assert!(preprocess(&cu, &no_defines()).is_ok());
    let taken = preprocess(&cu, &one_define("USE_MISSING"));
    match taken {
        Err(PpError::FileNotFound { filename }) => {
            assert_eq!(filename, b"missing.svh".to_vec())
        },
        _ => panic!("expected the missing-file error"),
    }
}

#[test]
fn io_error_propagates() {
    let cu = single(
        "root.sv",
        "",
        vec![Event::Inclusion {
            filename: b"locked.svh".to_vec(),
            loaded: Err(PpError::Io { path: b"locked.svh".to_vec() }),
        }],
    );
    match preprocess(&cu, &no_defines()) {
        Err(PpError::Io { path }) => assert_eq!(path, b"locked.svh".to_vec()),
        _ => panic!("expected the read error"),
    }
}

#[test]
fn parse_error_propagates() {
    let cu = single(
        "root.sv",
        "",
        vec![Event::Inclusion {
            filename: b"bad.svh".to_vec(),
            loaded: Err(PpError::Parse { path: b"bad.svh".to_vec() }),
        }],
    );
    match preprocess(&cu, &no_defines()) {
        Err(PpError::Parse { path }) => assert_eq!(path, b"bad.svh".to_vec()),
        _ => panic!("expected the parse error"),
    }
}

#[test]
fn depth_error_propagates() {
    let cu = single(
        "loop.sv",
        "",
        vec![Event::Inclusion {
            filename: b"loop.sv".to_vec(),
            loaded: Err(PpError::TooDeep { path: b"loop.sv".to_vec() }),
        }],
    );
    match preprocess(&cu, &no_defines()) {
        Err(PpError::TooDeep { path }) => assert_eq!(path, b"loop.sv".to_vec()),
        _ => panic!("expected the nesting error"),
    }
}
