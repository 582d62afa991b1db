use parser::enrich::{enrich, enrich_op, Enricher, EnrichError};
use parser::enrich::Operation as ExecOperation;
use parser::parse::{parse_source, ParseError, ParserProgram};
use parser::parse::Operation::{self, Add, Arcsine, Arctangent, BeginBlock, CallMethod,
    CallProgramMethod, CallShortProgramMethod, CloneStack, Cosine, Divide, DoubleQuote, Duplicate,
    End, EndBlock, Equals, Eval, Exit, Factorize, File, FinalVariable, Flatten, GetAllInput,
    GetLine, If, IfNot, Input, InputLength, Length, LeftStack, Log, Modulo, MoveLeft, MoveRight,
    MultiSwitch, Multiply, NewStack, Object, OutputAll, OutputChar, OutputNumeric, Part, Pi,
    Power, Prime, Random, Range, Remove, RemoveStack, Repeat, Reverse, RightStack, RotateLeft,
    RotateRight, Shell, Sine, SingleQuote, StackCount, Subtract, Switch, Tangent, Teleport,
    TemporaryVariable, Truncate, UseCount, UseName, Value, Wait, Write, E}; 
use parser::resolve::{FileSet, ResolveError, Resolver};
use parser::{parse, Method, Program};

#[test]
fn quine() {
    let mut files = FileSet::new();
    files.insert(
        "../examples/quine.vt".to_string(),
        "'rd3*Z\n".to_string(),
    );
    let program = parse("../examples/quine.vt".to_string(), &files).unwrap();
    let expected = Program {
        methods: vec![Method {
            ops: vec![
                SingleQuote,
                Reverse,
                Value(0xd),
                Value(0x3),
                Multiply,
                OutputAll,
            ],
        }],
        extends: vec![],
        uses: vec![],
    };
    assert_eq!(program, expected);
}

#[test]
fn quine_source_parses_to_single_method() {
    let program = parse_source("'rd3*Z").unwrap();
    assert_eq!(
        program,
        ParserProgram {
            methods: vec![Method {
                ops: vec![
                    SingleQuote,
                    Reverse,
                    Value(13),
                    Value(3),
                    Multiply,
                    OutputAll,
                ],
            }],
            extends: vec![],
            uses: vec![],
        }
    );
}

#[test]
fn alphabet_decodes_to_documented_operations() {
    let table: Vec<(char, Operation)> = vec![
        (')', IfNot),
        ('(', If),
        ('[', BeginBlock),
        (']', EndBlock),
        ('\\', Repeat),
        (';', End),
        ('x', Exit),
        ('#', Teleport),
        ('<', MoveLeft),
        ('>', MoveRight),
        ('"', DoubleQuote),
        ('\'', SingleQuote),
        ('m', CallMethod),
        ('i', Input),
        ('I', InputLength),
        ('l', Length),
        ('z', GetAllInput),
        ('Z', OutputAll),
        ('O', OutputChar),
        ('N', OutputNumeric),
        ('W', GetLine),
        ('$', Switch),
        ('%', MultiSwitch),
        ('}', RotateRight),
        ('{', RotateLeft),
        ('r', Reverse),
        ('@', Part),
        ('D', Duplicate),
        ('X', Remove),
        ('o', Object),
        ('&', NewStack),
        ('Y', RemoveStack),
        (':', CloneStack),
        ('?', RightStack),
        ('|', LeftStack),
        ('u', Flatten),
        ('y', StackCount),
        ('v', TemporaryVariable),
        ('V', FinalVariable),
        ('S', Sine),
        ('s', Arcsine),
        ('T', Tangent),
        ('t', Arctangent),
        ('C', Cosine),
        ('P', Pi),
        ('E', E),
        ('L', Log),
        ('R', Random),
        ('+', Add),
        ('-', Subtract),
        ('*', Multiply),
        ('/', Divide),
        ('^', Power),
        ('=', Equals),
        ('M', Modulo),
        ('_', Truncate),
        ('h', Factorize),
        ('p', Prime),
        ('H', Range),
        ('k', CallProgramMethod),
        ('K', CallShortProgramMethod),
        ('g', UseCount),
        ('G', UseName),
        ('w', Wait),
        ('`', File),
        ('.', Write),
        (',', Shell),
        ('n', Eval),
        ('0', Value(0)),
        ('1', Value(1)),
        ('2', Value(2)),
        ('3', Value(3)),
        ('4', Value(4)),
        ('5', Value(5)),
        ('6', Value(6)),
        ('7', Value(7)),
        ('8', Value(8)),
        ('9', Value(9)),
        ('a', Value(10)),
        ('b', Value(11)),
        ('c', Value(12)),
        ('d', Value(13)),
        ('e', Value(14)),
        ('f', Value(15)),
    ];
    for (c, op) in &table {
        let mut line = String::new();
        line.push(*c);
        let program = parse_source(&line).unwrap();
        assert_eq!(program.methods.len(), 1);
        assert_eq!(program.methods[0].ops, vec![*op]);
    }
}

#[test]
fn unrecognized_character_fails_whole_parse() {
    // 'q' is outside the alphabet: the file yields no partial program.
    assert_eq!(
        parse_source("123\n+q+"),
        Err(ParseError::UnrecognizedCharacter('q'))
    );
    assert_eq!(
        parse_source("ab~"),
        Err(ParseError::UnrecognizedCharacter('~'))
    );
}

#[test]
fn empty_method_line_is_rejected() {
    assert_eq!(parse_source("ab\n\ncd"), Err(ParseError::EmptyMethod));
}

#[test]
fn empty_file_is_rejected() {
    assert_eq!(parse_source(""), Err(ParseError::EmptyMethod));
    assert_eq!(parse_source("\n\n"), Err(ParseError::EmptyMethod));
}

#[test]
fn trailing_blank_lines_are_ignored() {
    let program = parse_source("ab\n\n\n").unwrap();
    assert_eq!(program.methods.len(), 1);
    assert_eq!(program.methods[0].ops, vec![Value(10), Value(11)]);
}

#[test]
fn extend_and_use_declarations_parse() {
    let program = parse_source("ab\ncd\n;e lib.vt\n;e more/lib2.vt\n;u mod.vt\n").unwrap();
    assert_eq!(program.methods.len(), 2);
    assert_eq!(program.extends.len(), 2);
    assert_eq!(program.extends[0].target, "lib.vt");
    assert_eq!(program.extends[1].target, "more/lib2.vt");
    assert_eq!(program.uses.len(), 1);
    assert_eq!(program.uses[0].target, "mod.vt");
}

#[test]
fn malformed_declaration_missing_filename() {
    // a last line `;e` with nothing after it is a malformed declaration,
    // not a crash, and no program comes back
    assert_eq!(parse_source("x\n;e"), Err(ParseError::MalformedDeclaration));
    assert_eq!(parse_source("x\n;e "), Err(ParseError::MalformedDeclaration));
    assert_eq!(
        parse_source("x\n;u a b"),
        Err(ParseError::MalformedDeclaration)
    );
}

#[test]
fn declarations_out_of_order_are_rejected() {
    // uses close the file: an extend after a use is out of order
    assert_eq!(
        parse_source("x\n;u a.vt\n;e b.vt"),
        Err(ParseError::MalformedDeclaration)
    );
}

fn file_set(entries: &[(&str, &str)]) -> FileSet {
    let mut files = FileSet::new();
    for (name, text) in entries {
        files.insert(name.to_string(), text.to_string());
    }
    files
}

/// Drive a resolver by hand, logging every name it asks to read.
fn run_resolver(root: &str, files: &FileSet) -> Result<(Resolver, Vec<String>), ResolveError> {
    let mut resolver = Resolver::new(root.to_string());
    let mut reads: Vec<String> = Vec::new();
    loop {
        let name = match resolver.next_request() {
            None => return Ok((resolver, reads)),
            Some(n) => n,
        };
        reads.push(name.clone());
        let text = match files.get(&name) {
            None => return Err(ResolveError::Io { name }),
            Some(t) => t.clone(),
        };
        resolver.supply(name, &text)?;
    }
}

#[test]
fn diamond_dependency_reads_each_file_once() {
    let files = file_set(&[
        ("root.vt", "x\n;e a.vt\n;u b.vt"),
        ("a.vt", "1\n;e common.vt"),
        ("b.vt", "2\n;u common.vt"),
        ("common.vt", "3"),
    ]);
    let (resolver, reads) = run_resolver("root.vt", &files).unwrap();
    for name in ["root.vt", "a.vt", "b.vt", "common.vt"] {
        assert!(resolver.get_program(&name.to_string()).is_some());
        assert_eq!(
            reads.iter().filter(|r| r.as_str() == name).count(),
            1,
            "{} read more than once",
            name
        );
    }
    assert_eq!(reads.len(), 4);
}

#[test]
fn two_file_cycle_resolves_and_loads_each_once() {
    let files = file_set(&[
        ("a.vt", "1\n;e b.vt"),
        ("b.vt", "2\n;e a.vt"),
    ]);
    let (resolver, reads) = run_resolver("a.vt", &files).unwrap();
    assert_eq!(reads.len(), 2);
    assert!(resolver.get_program(&"a.vt".to_string()).is_some());
    assert!(resolver.get_program(&"b.vt".to_string()).is_some());

    // the whole-run driver terminates on the same cycle
    let program = parse("a.vt".to_string(), &files).unwrap();
    assert_eq!(program.methods[0].ops, vec![Value(1)]);
}

#[test]
fn missing_file_aborts_resolution() {
    let files = file_set(&[("root.vt", "x\n;u gone.vt")]);
    assert_eq!(
        parse("root.vt".to_string(), &files),
        Err(ResolveError::Io {
            name: "gone.vt".to_string()
        })
    );
}

#[test]
fn missing_root_aborts_resolution() {
    let files = file_set(&[]);
    assert_eq!(
        parse("root.vt".to_string(), &files),
        Err(ResolveError::Io {
            name: "root.vt".to_string()
        })
    );
}

#[test]
fn parse_failure_in_referenced_file_aborts_resolution() {
    let files = file_set(&[("root.vt", "x\n;e bad.vt"), ("bad.vt", "a\n;e")]);
    assert_eq!(
        parse("root.vt".to_string(), &files),
        Err(ResolveError::Parse {
            name: "bad.vt".to_string(),
            error: ParseError::MalformedDeclaration,
        })
    );
}

#[test]
fn enrichment_returns_same_shared_result_twice() {
    let program = parse_source("'r+\nZ").unwrap();
    let mut cache = Enricher::new();
    assert!(cache.supply_program("f.vt".to_string(), program));
    let first = cache.enrich_method(&"f.vt".to_string(), 0).unwrap();
    let second = cache.enrich_method(&"f.vt".to_string(), 0).unwrap();
    assert_eq!(first, second);
    assert_eq!(
        first,
        vec![
            ExecOperation::SingleQuote,
            ExecOperation::Reverse,
            ExecOperation::Add,
        ]
    );
    let other = cache.enrich_method(&"f.vt".to_string(), 1).unwrap();
    assert_eq!(other, vec![ExecOperation::OutputAll]);
}

#[test]
fn supplying_a_program_twice_keeps_the_first() {
    let program = parse_source("1").unwrap();
    let other = parse_source("2").unwrap();
    let mut cache = Enricher::new();
    assert!(cache.supply_program("f.vt".to_string(), program));
    assert!(!cache.supply_program("f.vt".to_string(), other));
    let ops = cache.enrich_method(&"f.vt".to_string(), 0).unwrap();
    assert_eq!(ops, vec![ExecOperation::Value(1)]);
}

#[test]
fn method_index_out_of_range_is_an_error() {
    // two methods; requesting index 5 fails with the index and file named
    let program = parse_source("12\n34").unwrap();
    let mut cache = Enricher::new();
    assert!(cache.supply_program("two.vt".to_string(), program));
    assert_eq!(
        cache.enrich_method(&"two.vt".to_string(), 5),
        Err(EnrichError::IndexOutOfRange {
            name: "two.vt".to_string(),
            index: 5,
        })
    );
}

#[test]
fn enriching_an_unknown_file_is_an_error() {
    let mut cache = Enricher::new();
    assert_eq!(
        cache.enrich_method(&"nowhere.vt".to_string(), 0),
        Err(EnrichError::MissingProgram {
            name: "nowhere.vt".to_string()
        })
    );
}

#[test]
fn enrich_translates_method_zero() {
    let program = parse_source("mkK5\ng").unwrap();
    let enriched = enrich("f.vt".to_string(), program).unwrap();
    assert_eq!(
        enriched.ops,
        vec![
            ExecOperation::Method,
            ExecOperation::ProgramMethod,
            ExecOperation::ShortProgramMethod,
            ExecOperation::Value(5),
        ]
    );
}

#[test]
fn enrich_of_a_program_without_methods_is_an_index_error() {
    let program = ParserProgram {
        methods: vec![],
        extends: vec![],
        uses: vec![],
    };
    assert_eq!(
        enrich("empty.vt".to_string(), program),
        Err(EnrichError::IndexOutOfRange {
            name: "empty.vt".to_string(),
            index: 0,
        })
    );
}

#[test]
fn enrich_op_decorates_without_changing_the_operation() {
    let mut op = ExecOperation::Reverse;
    assert!(enrich_op(&mut op).is_ok());
    assert_eq!(op, ExecOperation::Reverse);
    let mut lit = ExecOperation::Value(9);
    assert!(enrich_op(&mut lit).is_ok());
    assert_eq!(lit, ExecOperation::Value(9));
}
