//! The grammar: decoding source text into a raw program.
//!
//! A source file is one or more method lines (each a non-empty run of opcode
//! characters), then zero or more `;e <filename>` extend declarations, then
//! zero or more `;u <filename>` use declarations, then optional trailing
//! blank lines.  [`parse_spec`] states the grammar over `Seq<char>`;
//! [`parse_source`] is the executable decoder, proved to agree with it.

use vstd::prelude::*;

verus! {

/// An ordered run of operations, addressed only by its position within a
/// program's method list.
#[derive(Clone, Debug, PartialEq, Eq)]
pub struct Method {
    pub ops: Vec<Operation>,
}

/// A declared inheritance relationship: the program gains the methods of the
/// file named by `target`.
#[derive(Clone, Debug, PartialEq, Eq)]
pub struct Extend {
    pub target: String,
}

/// A declared import relationship: the program addresses the file named by
/// `target` as a module.
#[derive(Clone, Debug, PartialEq, Eq)]
pub struct Use {
    pub target: String,
}

/// The raw parse of one source file: its methods and its extend/use targets,
/// recorded as opaque filenames with no resolution performed.
#[derive(Clone, Debug, PartialEq, Eq)]
pub struct ParserProgram {
    pub methods: Vec<Method>,
    pub extends: Vec<Extend>,
    pub uses: Vec<Use>,
}

/// A resolved program node.  The resolver leaves `extends` and `uses` empty
/// and keeps referenced programs in its filename-keyed graph instead of
/// linking sub-programs in place, so a shared target is stored once.
#[derive(Debug, PartialEq, Eq)]
pub struct Program {
    pub methods: Vec<Method>,
    pub extends: Vec<Box<Program>>,
    pub uses: Vec<Box<Program>>,
}

/// Why a source file was rejected.  The first fault anywhere in the file
/// fails the whole parse; no partial program is returned.
#[derive(Clone, Copy, Debug, PartialEq, Eq)]
pub enum ParseError {
    /// A method line holds a character outside the opcode alphabet.
    UnrecognizedCharacter(char),
    /// A blank line stands where a method body is required, or the file has
    /// no methods at all.
    EmptyMethod,
    /// A line opening like an extend/use declaration is missing its
    /// filename, names an invalid character, or stands out of order.
    MalformedDeclaration,
}

/// The mathematical model of a parsed file: methods as operation sequences,
/// extend/use targets as character sequences.
pub ghost struct ProgramView {
    pub methods: Seq<Seq<Operation>>,
    pub extends: Seq<Seq<char>>,
    pub uses: Seq<Seq<char>>,
}

impl View for Method {
    type V = Seq<Operation>;

    open spec fn view(&self) -> Seq<Operation> {
        self.ops@
    }
}

/// The operation sequences of a method list.
pub open spec fn methods_view(methods: Seq<Method>) -> Seq<Seq<Operation>> {
    methods.map_values(|m: Method| m.ops@)
}

impl View for ParserProgram {
    type V = ProgramView;

    open spec fn view(&self) -> ProgramView {
        ProgramView {
            methods: methods_view(self.methods@),
            extends: self.extends@.map_values(|e: Extend| e.target@),
            uses: self.uses@.map_values(|u: Use| u.target@),
        }
    }
}

/// One primitive instruction, encoded as a single source character, or a
/// 4-bit literal carried by `Value` (the characters `0`-`9` and `a`-`f`).
#[derive(Clone, Copy, Debug, PartialEq, Eq, Structural)]
pub enum Operation {
    IfNot,
    If,
    BeginBlock,
    EndBlock,
    Repeat,
    End,
    Exit,
    Teleport,
    MoveLeft,
    MoveRight,
    DoubleQuote,
    SingleQuote,
    CallMethod,
    Input,
    InputLength,
    Length,
    GetAllInput,
    OutputAll,
    OutputChar,
    OutputNumeric,
    GetLine,
    Switch,
    MultiSwitch,
    RotateRight,
    RotateLeft,
    Reverse,
    Part,
    Duplicate,
    Remove,
    Object,
    NewStack,
    RemoveStack,
    CloneStack,
    RightStack,
    LeftStack,
    Flatten,
    StackCount,
    TemporaryVariable,
    FinalVariable,
    Sine,
    Arcsine,
    Tangent,
    Arctangent,
    Cosine,
    Arccosine,
    Pi,
    E,
    Log,
    Random,
    Add,
    Subtract,
    Multiply,
    Divide,
    Power,
    Equals,
    Modulo,
    Truncate,
    Factorize,
    Prime,
    Range,
    CallProgramMethod,
    CallShortProgramMethod,
    UseCount,
    UseName,
    Wait,
    File,
    Write,
    Shell,
    Eval,
    Value(u8),
}

/// The opcode table: the operation a source character decodes to, or `None`
/// for a character outside the alphabet.  The table is part of the external
/// contract of the file format and is reproduced character for character.
///
/// `Arccosine` has no character of its own: the alphabet assigns `s` to both
/// arcsine and arccosine, an ambiguity the language definition carries, and
/// the earlier reading (`Arcsine`) wins.  The variant stays, so that the
/// execution-level instruction set is complete, but no character reaches it.
pub open spec fn op_of_char(c: char) -> Option<Operation> {
    match c {
        ')' => Some(Operation::IfNot),
        '(' => Some(Operation::If),
        '[' => Some(Operation::BeginBlock),
        ']' => Some(Operation::EndBlock),
        '\\' => Some(Operation::Repeat),
        ';' => Some(Operation::End),
        'x' => Some(Operation::Exit),
        '#' => Some(Operation::Teleport),
        '<' => Some(Operation::MoveLeft),
        '>' => Some(Operation::MoveRight),
        '"' => Some(Operation::DoubleQuote),
        '\'' => Some(Operation::SingleQuote),
        'm' => Some(Operation::CallMethod),
        'i' => Some(Operation::Input),
        'I' => Some(Operation::InputLength),
        'l' => Some(Operation::Length),
        'z' => Some(Operation::GetAllInput),
        'Z' => Some(Operation::OutputAll),
        'O' => Some(Operation::OutputChar),
        'N' => Some(Operation::OutputNumeric),
        'W' => Some(Operation::GetLine),
        '$' => Some(Operation::Switch),
        '%' => Some(Operation::MultiSwitch),
        '}' => Some(Operation::RotateRight),
        '{' => Some(Operation::RotateLeft),
        'r' => Some(Operation::Reverse),
        '@' => Some(Operation::Part),
        'D' => Some(Operation::Duplicate),
        'X' => Some(Operation::Remove),
        'o' => Some(Operation::Object),
        '&' => Some(Operation::NewStack),
        'Y' => Some(Operation::RemoveStack),
        ':' => Some(Operation::CloneStack),
        '?' => Some(Operation::RightStack),
        '|' => Some(Operation::LeftStack),
        'u' => Some(Operation::Flatten),
        'y' => Some(Operation::StackCount),
        'v' => Some(Operation::TemporaryVariable),
        'V' => Some(Operation::FinalVariable),
        'S' => Some(Operation::Sine),
        's' => Some(Operation::Arcsine),
        'T' => Some(Operation::Tangent),
        't' => Some(Operation::Arctangent),
        'C' => Some(Operation::Cosine),
        'P' => Some(Operation::Pi),
        'E' => Some(Operation::E),
        'L' => Some(Operation::Log),
        'R' => Some(Operation::Random),
        '+' => Some(Operation::Add),
        '-' => Some(Operation::Subtract),
        '*' => Some(Operation::Multiply),
        '/' => Some(Operation::Divide),
        '^' => Some(Operation::Power),
        '=' => Some(Operation::Equals),
        'M' => Some(Operation::Modulo),
        '_' => Some(Operation::Truncate),
        'h' => Some(Operation::Factorize),
        'p' => Some(Operation::Prime),
        'H' => Some(Operation::Range),
        'k' => Some(Operation::CallProgramMethod),
        'K' => Some(Operation::CallShortProgramMethod),
        'g' => Some(Operation::UseCount),
        'G' => Some(Operation::UseName),
        'w' => Some(Operation::Wait),
        '`' => Some(Operation::File),
        '.' => Some(Operation::Write),
        ',' => Some(Operation::Shell),
        'n' => Some(Operation::Eval),
        '0' => Some(Operation::Value(0)),
        '1' => Some(Operation::Value(1)),
        '2' => Some(Operation::Value(2)),
        '3' => Some(Operation::Value(3)),
        '4' => Some(Operation::Value(4)),
        '5' => Some(Operation::Value(5)),
        '6' => Some(Operation::Value(6)),
        '7' => Some(Operation::Value(7)),
        '8' => Some(Operation::Value(8)),
        '9' => Some(Operation::Value(9)),
        'a' => Some(Operation::Value(10)),
        'b' => Some(Operation::Value(11)),
        'c' => Some(Operation::Value(12)),
        'd' => Some(Operation::Value(13)),
        'e' => Some(Operation::Value(14)),
        'f' => Some(Operation::Value(15)),
        _ => None,
    }
}

/// Decode one source character.
pub fn lex_char(c: char) -> (r: Option<Operation>)
    ensures
        r == op_of_char(c),
{
    match c {
        ')' => Some(Operation::IfNot),
        '(' => Some(Operation::If),
        '[' => Some(Operation::BeginBlock),
        ']' => Some(Operation::EndBlock),
        '\\' => Some(Operation::Repeat),
        ';' => Some(Operation::End),
        'x' => Some(Operation::Exit),
        '#' => Some(Operation::Teleport),
        '<' => Some(Operation::MoveLeft),
        '>' => Some(Operation::MoveRight),
        '"' => Some(Operation::DoubleQuote),
        '\'' => Some(Operation::SingleQuote),
        'm' => Some(Operation::CallMethod),
        'i' => Some(Operation::Input),
        'I' => Some(Operation::InputLength),
        'l' => Some(Operation::Length),
        'z' => Some(Operation::GetAllInput),
        'Z' => Some(Operation::OutputAll),
        'O' => Some(Operation::OutputChar),
        'N' => Some(Operation::OutputNumeric),
        'W' => Some(Operation::GetLine),
        '$' => Some(Operation::Switch),
        '%' => Some(Operation::MultiSwitch),
        '}' => Some(Operation::RotateRight),
        '{' => Some(Operation::RotateLeft),
        'r' => Some(Operation::Reverse),
        '@' => Some(Operation::Part),
        'D' => Some(Operation::Duplicate),
        'X' => Some(Operation::Remove),
        'o' => Some(Operation::Object),
        '&' => Some(Operation::NewStack),
        'Y' => Some(Operation::RemoveStack),
        ':' => Some(Operation::CloneStack),
        '?' => Some(Operation::RightStack),
        '|' => Some(Operation::LeftStack),
        'u' => Some(Operation::Flatten),
        'y' => Some(Operation::StackCount),
        'v' => Some(Operation::TemporaryVariable),
        'V' => Some(Operation::FinalVariable),
        'S' => Some(Operation::Sine),
        's' => Some(Operation::Arcsine),
        'T' => Some(Operation::Tangent),
        't' => Some(Operation::Arctangent),
        'C' => Some(Operation::Cosine),
        'P' => Some(Operation::Pi),
        'E' => Some(Operation::E),
        'L' => Some(Operation::Log),
        'R' => Some(Operation::Random),
        '+' => Some(Operation::Add),
        '-' => Some(Operation::Subtract),
        '*' => Some(Operation::Multiply),
        '/' => Some(Operation::Divide),
        '^' => Some(Operation::Power),
        '=' => Some(Operation::Equals),
        'M' => Some(Operation::Modulo),
        '_' => Some(Operation::Truncate),
        'h' => Some(Operation::Factorize),
        'p' => Some(Operation::Prime),
        'H' => Some(Operation::Range),
        'k' => Some(Operation::CallProgramMethod),
        'K' => Some(Operation::CallShortProgramMethod),
        'g' => Some(Operation::UseCount),
        'G' => Some(Operation::UseName),
        'w' => Some(Operation::Wait),
        '`' => Some(Operation::File),
        '.' => Some(Operation::Write),
        ',' => Some(Operation::Shell),
        'n' => Some(Operation::Eval),
        '0' => Some(Operation::Value(0)),
        '1' => Some(Operation::Value(1)),
        '2' => Some(Operation::Value(2)),
        '3' => Some(Operation::Value(3)),
        '4' => Some(Operation::Value(4)),
        '5' => Some(Operation::Value(5)),
        '6' => Some(Operation::Value(6)),
        '7' => Some(Operation::Value(7)),
        '8' => Some(Operation::Value(8)),
        '9' => Some(Operation::Value(9)),
        'a' => Some(Operation::Value(10)),
        'b' => Some(Operation::Value(11)),
        'c' => Some(Operation::Value(12)),
        'd' => Some(Operation::Value(13)),
        'e' => Some(Operation::Value(14)),
        'f' => Some(Operation::Value(15)),
        _ => None,
    }
}

/// Characters a declaration's filename may hold: alphanumerics, `.`, `-`,
/// `_`, and the path separator.
pub open spec fn is_filename_char(c: char) -> bool {
    ||| ('0' as u32) <= (c as u32) <= ('9' as u32)
    ||| ('a' as u32) <= (c as u32) <= ('z' as u32)
    ||| ('A' as u32) <= (c as u32) <= ('Z' as u32)
    ||| c == '.'
    ||| c == '-'
    ||| c == '_'
    ||| c == '/'
}

/// The lines of a text, split on `'\n'`.  Splitting never yields an empty
/// list: an empty text is one empty line.
pub open spec fn split_lines(text: Seq<char>) -> Seq<Seq<char>>
    decreases text.len(),
{
    if text.len() == 0 {
        seq![Seq::<char>::empty()]
    } else if text[0] == '\n' {
        seq![Seq::<char>::empty()] + split_lines(text.drop_first())
    } else {
        let rest = split_lines(text.drop_first());
        seq![seq![text[0]] + rest[0]] + rest.drop_first()
    }
}

/// Trailing blank lines are ignored by the grammar.
pub open spec fn trim_trailing_blanks(lines: Seq<Seq<char>>) -> Seq<Seq<char>>
    decreases lines.len(),
{
    if lines.len() > 0 && lines.last().len() == 0 {
        trim_trailing_blanks(lines.drop_last())
    } else {
        lines
    }
}

/// Decode a whole method line, or report the first character outside the
/// opcode alphabet.
pub open spec fn lex_line(line: Seq<char>) -> Result<Seq<Operation>, char>
    decreases line.len(),
{
    if line.len() == 0 {
        Ok(Seq::<Operation>::empty())
    } else {
        match op_of_char(line[0]) {
            None => Err(line[0]),
            Some(op) => match lex_line(line.drop_first()) {
                Ok(r) => Ok(seq![op] + r),
                Err(c) => Err(c),
            },
        }
    }
}

/// A line that opens like an extend declaration.
pub open spec fn is_extend_line(line: Seq<char>) -> bool {
    line.len() >= 2 && line[0] == ';' && line[1] == 'e'
}

/// A line that opens like a use declaration.
pub open spec fn is_use_line(line: Seq<char>) -> bool {
    line.len() >= 2 && line[0] == ';' && line[1] == 'u'
}

/// The filename of a well-formed declaration line `;e <filename>` or
/// `;u <filename>`: a space after the two-character keyword, then a
/// non-empty run of filename characters to the end of the line.
pub open spec fn decl_target(line: Seq<char>) -> Option<Seq<char>> {
    if line.len() >= 4 && line[2] == ' ' && (forall|i: int|
        3 <= i < line.len() ==> is_filename_char(line[i])) {
        Some(line.subrange(3, line.len() as int))
    } else {
        None
    }
}

pub open spec fn empty_program_view() -> ProgramView {
    ProgramView {
        methods: Seq::<Seq<Operation>>::empty(),
        extends: Seq::<Seq<char>>::empty(),
        uses: Seq::<Seq<char>>::empty(),
    }
}

/// The use-declaration section: zero or more `;u <filename>` lines close the
/// file; anything else here is out of order.
pub open spec fn parse_use_lines(lines: Seq<Seq<char>>) -> Result<ProgramView, ParseError>
    decreases lines.len(), 0int,
{
    if lines.len() == 0 {
        Ok(empty_program_view())
    } else if is_use_line(lines[0]) {
        match decl_target(lines[0]) {
            None => Err(ParseError::MalformedDeclaration),
            Some(t) => match parse_use_lines(lines.drop_first()) {
                Ok(p) => Ok(ProgramView { uses: seq![t] + p.uses, ..p }),
                Err(e) => Err(e),
            },
        }
    } else {
        Err(ParseError::MalformedDeclaration)
    }
}

/// The extend-declaration section: zero or more `;e <filename>` lines, then
/// the use section.
pub open spec fn parse_extend_lines(lines: Seq<Seq<char>>) -> Result<ProgramView, ParseError>
    decreases lines.len(), 1int,
{
    if lines.len() == 0 {
        Ok(empty_program_view())
    } else if is_extend_line(lines[0]) {
        match decl_target(lines[0]) {
            None => Err(ParseError::MalformedDeclaration),
            Some(t) => match parse_extend_lines(lines.drop_first()) {
                Ok(p) => Ok(ProgramView { extends: seq![t] + p.extends, ..p }),
                Err(e) => Err(e),
            },
        }
    } else {
        parse_use_lines(lines)
    }
}

/// The method section: opcode lines until the first declaration line.  A
/// line opening with `;e` or `;u` is always read as a declaration, never as
/// a method, so `;e` without a filename is a malformed declaration.
pub open spec fn parse_method_lines(lines: Seq<Seq<char>>) -> Result<ProgramView, ParseError>
    decreases lines.len(), 2int,
{
    if lines.len() == 0 {
        Ok(empty_program_view())
    } else if lines[0].len() == 0 {
        Err(ParseError::EmptyMethod)
    } else if is_extend_line(lines[0]) || is_use_line(lines[0]) {
        parse_extend_lines(lines)
    } else {
        match lex_line(lines[0]) {
            Err(c) => Err(ParseError::UnrecognizedCharacter(c)),
            Ok(ops) => match parse_method_lines(lines.drop_first()) {
                Ok(p) => Ok(ProgramView { methods: seq![ops] + p.methods, ..p }),
                Err(e) => Err(e),
            },
        }
    }
}

/// The grammar: what parsing a source text yields.  One or more method
/// lines, then extend declarations, then use declarations, then optional
/// trailing blank lines; the first fault rejects the whole text.
pub open spec fn parse_spec(text: Seq<char>) -> Result<ProgramView, ParseError> {
    match parse_method_lines(trim_trailing_blanks(split_lines(text))) {
        Ok(p) => if p.methods.len() == 0 {
            Err(ParseError::EmptyMethod)
        } else {
            Ok(p)
        },
        Err(e) => Err(e),
    }
}

proof fn lemma_split_lines_nonempty(text: Seq<char>)
    ensures
        split_lines(text).len() >= 1,
    decreases text.len(),
{
    if text.len() != 0 {
        lemma_split_lines_nonempty(text.drop_first());
    }
}

/// Extending a text by one character extends its last line, or opens a new
/// one on a line break.
proof fn lemma_split_lines_push(t: Seq<char>, c: char)
    ensures
        c == '\n' ==> split_lines(t.push(c)) == split_lines(t).push(Seq::<char>::empty()),
        c != '\n' ==> split_lines(t.push(c)) == split_lines(t).update(
            split_lines(t).len() - 1,
            split_lines(t).last().push(c),
        ),
    decreases t.len(),
{
    lemma_split_lines_nonempty(t);
    if t.len() == 0 {
        assert(t.push(c).drop_first() =~= t);
        if c == '\n' {
            assert(split_lines(t.push(c)) =~~= split_lines(t).push(Seq::<char>::empty()));
        } else {
            assert(split_lines(t.push(c)) =~~= split_lines(t).update(
                split_lines(t).len() - 1,
                split_lines(t).last().push(c),
            ));
        }
    } else {
        lemma_split_lines_push(t.drop_first(), c);
        lemma_split_lines_nonempty(t.drop_first());
        assert(t.push(c).drop_first() =~= t.drop_first().push(c));
        assert(t.push(c)[0] == t[0]);
        if c == '\n' {
            assert(split_lines(t.push(c)) =~~= split_lines(t).push(Seq::<char>::empty()));
        } else {
            assert(split_lines(t.push(c)) =~~= split_lines(t).update(
                split_lines(t).len() - 1,
                split_lines(t).last().push(c),
            ));
        }
    }
}

/// A line whose every character decodes is read as exactly those operations.
proof fn lemma_lex_line_ok(line: Seq<char>, ops: Seq<Operation>)
    requires
        ops.len() == line.len(),
        forall|k: int| 0 <= k < line.len() ==> op_of_char(line[k]) == Some(ops[k]),
    ensures
        lex_line(line) == Ok::<Seq<Operation>, char>(ops),
    decreases line.len(),
{
    if line.len() > 0 {
        assert(op_of_char(line[0]) == Some(ops[0]));
        assert forall|k: int| 0 <= k < line.drop_first().len() implies op_of_char(
            line.drop_first()[k],
        ) == Some(ops.drop_first()[k]) by {
            assert(op_of_char(line[k + 1]) == Some(ops[k + 1]));
        }
        lemma_lex_line_ok(line.drop_first(), ops.drop_first());
        assert(seq![ops[0]] + ops.drop_first() =~= ops);
    } else {
        assert(ops =~= Seq::<Operation>::empty());
    }
}

/// The views of a list of line buffers.
spec fn lines_view(lines: Seq<Vec<char>>) -> Seq<Seq<char>> {
    lines.map_values(|l: Vec<char>| l@)
}

/// Relies on `String: FromIterator<char>`: collecting characters builds the
/// string holding exactly those characters in order.
#[verifier::external_body]
fn string_from_chars(v: &Vec<char>) -> (r: String)
    ensures
        r@ == v@,
{
    v.iter().collect()
}

/// Whether a character may stand in a declaration's filename.
fn char_is_filename(c: char) -> (r: bool)
    ensures
        r == is_filename_char(c),
{
    let u = c as u32;
    (('0' as u32) <= u && u <= ('9' as u32)) || (('a' as u32) <= u && u <= ('z' as u32)) || (('A'
        as u32) <= u && u <= ('Z' as u32)) || c == '.' || c == '-' || c == '_' || c == '/'
}

/// Split the text on line breaks.
fn split_into_lines(s: &str) -> (lines: Vec<Vec<char>>)
    ensures
        lines_view(lines@) == split_lines(s@),
{
    let n = s.unicode_len();
    let mut lines: Vec<Vec<char>> = Vec::new();
    let mut cur: Vec<char> = Vec::new();
    let mut i: usize = 0;
    proof {
        assert(s@.take(0) =~= Seq::<char>::empty());
        assert(lines_view(lines@).push(cur@) =~~= split_lines(s@.take(0)));
    }
    while i < n
        invariant
            n == s@.len(),
            i <= n,
            lines_view(lines@).push(cur@) == split_lines(s@.take(i as int)),
        decreases n - i,
    {
        let c = s.get_char(i);
        proof {
            lemma_split_lines_push(s@.take(i as int), c);
            assert(s@.take(i as int).push(c) =~= s@.take(i + 1 as int));
        }
        if c == '\n' {
            lines.push(cur);
            cur = Vec::new();
            proof {
                assert(lines_view(lines@).push(cur@) =~~= split_lines(s@.take(i as int)).push(
                    Seq::<char>::empty(),
                ));
            }
        } else {
            let ghost prev = split_lines(s@.take(i as int));
            cur.push(c);
            proof {
                assert(lines_view(lines@).push(cur@) =~~= prev.update(
                    prev.len() - 1,
                    prev.last().push(c),
                ));
            }
        }
        i += 1;
    }
    proof {
        assert(s@.take(n as int) =~= s@);
    }
    let ghost before = lines@;
    lines.push(cur);
    proof {
        assert(lines_view(lines@) =~~= lines_view(before).push(cur@));
    }
    lines
}

/// Decode one method line, or report its first bad character.
fn lex_line_exec(line: &Vec<char>) -> (r: Result<Vec<Operation>, char>)
    ensures
        r matches Ok(ops) ==> lex_line(line@) == Ok::<Seq<Operation>, char>(ops@),
        r matches Err(c) ==> lex_line(line@) == Err::<Seq<Operation>, char>(c),
{
    let mut ops: Vec<Operation> = Vec::new();
    let mut j: usize = 0;
    while j < line.len()
        invariant
            j <= line@.len(),
            ops@.len() == j,
            forall|k: int| 0 <= k < j ==> op_of_char(line@[k]) == Some(ops@[k]),
        decreases line@.len() - j,
    {
        let c = line[j];
        match lex_char(c) {
            None => {
                proof {
                    lemma_lex_line_err(line@, j as int);
                }
                return Err(c);
            },
            Some(op) => {
                ops.push(op);
            },
        }
        j += 1;
    }
    proof {
        lemma_lex_line_ok(line@, ops@);
    }
    Ok(ops)
}

/// Read the filename of a declaration line, or recognize it as malformed.
fn decl_target_exec(line: &Vec<char>) -> (r: Option<String>)
    ensures
        r matches Some(t) ==> decl_target(line@) == Some(t@),
        r is None ==> decl_target(line@) is None,
{
    if line.len() < 4 {
        return None;
    }
    if line[2] != ' ' {
        return None;
    }
    let mut fname: Vec<char> = Vec::new();
    let mut j: usize = 3;
    proof {
        assert(fname@ =~= line@.subrange(3, 3));
    }
    while j < line.len()
        invariant
            3 <= j <= line@.len(),
            line@.len() >= 4,
            line@[2] == ' ',
            fname@ == line@.subrange(3, j as int),
            forall|k: int| 3 <= k < j ==> is_filename_char(line@[k]),
        decreases line@.len() - j,
    {
        let c = line[j];
        if !char_is_filename(c) {
            proof {
                assert(!is_filename_char(line@[j as int]));
            }
            return None;
        }
        fname.push(c);
        proof {
            assert(fname@ =~= line@.subrange(3, j + 1 as int));
        }
        j += 1;
    }
    let t = string_from_chars(&fname);
    proof {
        assert(fname@ =~= line@.subrange(3, line@.len() as int));
    }
    Some(t)
}

/// Which section of the file the given suffix of lines belongs to.
spec fn phase_rest(phase: int, lines: Seq<Seq<char>>) -> Result<ProgramView, ParseError> {
    if phase == 0 {
        parse_method_lines(lines)
    } else if phase == 1 {
        parse_extend_lines(lines)
    } else {
        parse_use_lines(lines)
    }
}

/// What already-consumed sections combine to, given the rest's parse.
spec fn combine(
    m: Seq<Seq<Operation>>,
    e: Seq<Seq<char>>,
    u: Seq<Seq<char>>,
    rest: Result<ProgramView, ParseError>,
) -> Result<ProgramView, ParseError> {
    match rest {
        Ok(p) => Ok(
            ProgramView { methods: m + p.methods, extends: e + p.extends, uses: u + p.uses },
        ),
        Err(err) => Err(err),
    }
}

/// Parse the full text of one source file into a raw program.  The contract
/// is the grammar itself: the result is exactly what [`parse_spec`] assigns
/// to the text, success and error cases alike.
pub fn parse_source(s: &str) -> (r: Result<ParserProgram, ParseError>)
    ensures
        r matches Ok(p) ==> parse_spec(s@) == Ok::<ProgramView, ParseError>(p@),
        r matches Err(e) ==> parse_spec(s@) == Err::<ProgramView, ParseError>(e),
{
    let mut lines = split_into_lines(s);
    while lines.len() > 0 && lines[lines.len() - 1].len() == 0
        invariant
            trim_trailing_blanks(lines_view(lines@)) == trim_trailing_blanks(split_lines(s@)),
        decreases lines@.len(),
    {
        let ghost before = lines@;
        lines.pop();
        proof {
            assert(lines_view(lines@) =~~= lines_view(before).drop_last());
        }
    }
    let ghost tl = lines_view(lines@);
    proof {
        assert(trim_trailing_blanks(tl) == tl);
        assert(tl == trim_trailing_blanks(split_lines(s@)));
    }
    let mut methods: Vec<Method> = Vec::new();
    let mut extends: Vec<Extend> = Vec::new();
    let mut uses: Vec<Use> = Vec::new();
    let mut j: usize = 0;
    let mut phase: usize = 0;
    proof {
        assert(tl.skip(0) =~= tl);
        assert(combine(
            methods@.map_values(|m: Method| m.ops@),
            extends@.map_values(|e: Extend| e.target@),
            uses@.map_values(|u: Use| u.target@),
            phase_rest(0, tl),
        ) =~~= parse_method_lines(tl));
    }
    while j < lines.len()
        invariant
            j <= lines@.len(),
            phase <= 2,
            tl == lines_view(lines@),
            tl == trim_trailing_blanks(split_lines(s@)),
            combine(
                methods@.map_values(|m: Method| m.ops@),
                extends@.map_values(|e: Extend| e.target@),
                uses@.map_values(|u: Use| u.target@),
                phase_rest(phase as int, tl.skip(j as int)),
            ) == parse_method_lines(tl),
        decreases lines@.len() - j, 2 - phase,
    {
        proof {
            assert(tl.skip(j as int).len() == tl.len() - j);
            assert(tl.skip(j as int)[0] == tl[j as int]);
            assert(tl.skip(j as int).drop_first() =~= tl.skip(j + 1 as int));
        }
        let line_len = lines[j].len();
        let is_ext = line_len >= 2 && lines[j][0] == ';' && lines[j][1] == 'e';
        let is_use = line_len >= 2 && lines[j][0] == ';' && lines[j][1] == 'u';
        if phase == 0 {
            if line_len == 0 {
                return Err(ParseError::EmptyMethod);
            } else if is_ext || is_use {
                phase = 1;
            } else {
                let ghost m0 = methods@.map_values(|m: Method| m.ops@);
                match lex_line_exec(&lines[j]) {
                    Err(c) => {
                        return Err(ParseError::UnrecognizedCharacter(c));
                    },
                    Ok(ops) => {
                        let ghost opsv = ops@;
                        methods.push(Method { ops });
                        proof {
                            assert(methods@.map_values(|m: Method| m.ops@) =~~= m0.push(opsv));
                            if let Ok(p) = parse_method_lines(tl.skip(j + 1 as int)) {
                                assert(m0.push(opsv) + p.methods =~= m0 + (seq![opsv] + p.methods));
                            }
                        }
                        j += 1;
                    },
                }
            }
        } else if phase == 1 {
            if is_ext {
                let ghost e0 = extends@.map_values(|e: Extend| e.target@);
                match decl_target_exec(&lines[j]) {
                    None => {
                        return Err(ParseError::MalformedDeclaration);
                    },
                    Some(t) => {
                        let ghost tv = t@;
                        extends.push(Extend { target: t });
                        proof {
                            assert(extends@.map_values(|e: Extend| e.target@) =~~= e0.push(tv));
                            if let Ok(p) = parse_extend_lines(tl.skip(j + 1 as int)) {
                                assert(e0.push(tv) + p.extends =~= e0 + (seq![tv] + p.extends));
                            }
                        }
                        j += 1;
                    },
                }
            } else {
                phase = 2;
            }
        } else {
            if is_use {
                let ghost u0 = uses@.map_values(|u: Use| u.target@);
                match decl_target_exec(&lines[j]) {
                    None => {
                        return Err(ParseError::MalformedDeclaration);
                    },
                    Some(t) => {
                        let ghost tv = t@;
                        uses.push(Use { target: t });
                        proof {
                            assert(uses@.map_values(|u: Use| u.target@) =~~= u0.push(tv));
                            if let Ok(p) = parse_use_lines(tl.skip(j + 1 as int)) {
                                assert(u0.push(tv) + p.uses =~= u0 + (seq![tv] + p.uses));
                            }
                        }
                        j += 1;
                    },
                }
            } else {
                return Err(ParseError::MalformedDeclaration);
            }
        }
    }
    proof {
        assert(tl.skip(j as int) =~= Seq::<Seq<char>>::empty());
    }
    if methods.len() == 0 {
        return Err(ParseError::EmptyMethod);
    }
    let p = ParserProgram { methods, extends, uses };
    proof {
        if let Ok(pv) = parse_method_lines(tl) {
            assert(p@.methods =~= pv.methods);
            assert(p@.extends =~= pv.extends);
            assert(p@.uses =~= pv.uses);
        }
    }
    Ok(p)
}

/// Grammar totality at the character level: a method line decodes exactly
/// when each of its characters stands in the opcode alphabet; it then
/// decodes to exactly the operations the table assigns, character for
/// character, and otherwise the reported character is one of the line's own,
/// outside the alphabet.
pub proof fn lemma_lex_line_total(line: Seq<char>)
    ensures
        lex_line(line) is Ok <==> (forall|k: int|
            0 <= k < line.len() ==> op_of_char(#[trigger] line[k]) is Some),
        lex_line(line) matches Ok(ops) ==> ops.len() == line.len() && (forall|k: int|
            0 <= k < line.len() ==> Some(ops[k]) == op_of_char(#[trigger] line[k])),
        lex_line(line) matches Err(c) ==> op_of_char(c) is None && line.contains(c),
    decreases line.len(),
{
    if line.len() > 0 {
        lemma_lex_line_total(line.drop_first());
        if op_of_char(line[0]) is Some {
            match lex_line(line.drop_first()) {
                Ok(rest) => {
                    assert forall|k: int| 0 <= k < line.len() implies Some(
                        (seq![op_of_char(line[0])->Some_0] + rest)[k],
                    ) == op_of_char(#[trigger] line[k]) by {
                        if k > 0 {
                            assert(line.drop_first()[k - 1] == line[k]);
                        }
                    }
                },
                Err(c) => {
                    let j = choose|j: int|
                        0 <= j < line.drop_first().len() && line.drop_first()[j] == c;
                    assert(line[j + 1] == c);
                    assert(!(forall|k: int|
                        0 <= k < line.len() ==> op_of_char(#[trigger] line[k]) is Some)) by {
                        assert(op_of_char(line[j + 1]) is None);
                    }
                },
            }
        } else {
            assert(line[0] == line[0]);
        }
    }
}

proof fn lemma_method_lines_err(lines: Seq<Seq<char>>, i: int)
    requires
        0 <= i < lines.len(),
        forall|k: int|
            0 <= k < i ==> lex_line(#[trigger] lines[k]) is Ok && lines[k].len() > 0
                && !is_extend_line(lines[k]) && !is_use_line(lines[k]),
        !is_extend_line(lines[i]),
        !is_use_line(lines[i]),
        lex_line(lines[i]) is Err,
    ensures
        parse_method_lines(lines) is Err,
    decreases i,
{
    if i > 0 {
        assert forall|k: int|
            0 <= k < i - 1 implies lex_line(#[trigger] lines.drop_first()[k]) is Ok
            && lines.drop_first()[k].len() > 0 && !is_extend_line(lines.drop_first()[k])
            && !is_use_line(lines.drop_first()[k]) by {
            assert(lines.drop_first()[k] == lines[k + 1]);
        }
        assert(lines.drop_first()[i - 1] == lines[i]);
        lemma_method_lines_err(lines.drop_first(), i - 1);
    }
}

/// Grammar totality at the file level: a character outside the opcode
/// alphabet anywhere in a method line fails the whole parse — no partial
/// program is returned.  `i` is the first faulty line: every line before it
/// is a well-formed method line, line `i` is read as a method (it does not
/// open a declaration) and holds a character the table rejects.
pub proof fn lemma_unrecognized_character_fails(text: Seq<char>, i: int)
    requires
        ({
            let lines = trim_trailing_blanks(split_lines(text));
            &&& 0 <= i < lines.len()
            &&& forall|k: int|
                0 <= k < i ==> lex_line(#[trigger] lines[k]) is Ok && lines[k].len() > 0
                    && !is_extend_line(lines[k]) && !is_use_line(lines[k])
            &&& !is_extend_line(lines[i])
            &&& !is_use_line(lines[i])
            &&& lex_line(lines[i]) is Err
        }),
    ensures
        parse_spec(text) is Err,
{
    lemma_method_lines_err(trim_trailing_blanks(split_lines(text)), i);
}

/// A line fails on its first character outside the alphabet.
proof fn lemma_lex_line_err(line: Seq<char>, j: int)
    requires
        0 <= j < line.len(),
        forall|k: int| 0 <= k < j ==> op_of_char(line[k]) is Some,
        op_of_char(line[j]) is None,
    ensures
        lex_line(line) == Err::<Seq<Operation>, char>(line[j]),
    decreases line.len(),
{
    if j > 0 {
        lemma_lex_line_err(line.drop_first(), j - 1);
    }
}

} // verus!

