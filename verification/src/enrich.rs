//! The enrichment cache: memoized, execution-ready per-method operation
//! lists, addressed by (filename, method index).
//!
//! Raw operations are translated one for one into their execution-level
//! counterparts ([`base_ops`]) and each passes once through the
//! per-operation decoration seam ([`enrich_op`]).  An [`Enricher`] caches
//! parsed programs by filename and enriched method bodies by (filename,
//! index), so repeated requests for the same pair return the same list
//! without recomputation.

use vstd::prelude::*;
use crate::parse::{Operation as ParserOperation, ParserProgram, ProgramView};
use crate::resolve::{graph_map, clone_string};

verus! {

/// An execution-ready program body: the enriched operation list of one
/// method, as handed to an execution backend.
#[derive(Clone, Debug, PartialEq, Eq)]
pub struct Program {
    pub ops: Vec<Operation>,
}

/// One execution-level instruction.  The raw operations map onto these one
/// for one; the call operations lose their parse-level `Call` prefix, and
/// `Value` carries a 4-bit literal through to the backend unchanged.
#[derive(Clone, Copy, Debug, PartialEq, Eq, Structural)]
pub enum Operation {
    IfNot,
    If,
    BeginBlock,
    EndBlock,
    Repeat,
    End,
    Exit,
    Teleport,
    MoveLeft,
    MoveRight,
    DoubleQuote,
    SingleQuote,
    Method,
    Input,
    InputLength,
    Length,
    GetAllInput,
    OutputAll,
    OutputChar,
    OutputNumeric,
    GetLine,
    Switch,
    MultiSwitch,
    RotateRight,
    RotateLeft,
    Reverse,
    Part,
    Duplicate,
    Remove,
    Object,
    NewStack,
    RemoveStack,
    CloneStack,
    RightStack,
    LeftStack,
    Flatten,
    StackCount,
    TemporaryVariable,
    FinalVariable,
    Sine,
    Arcsine,
    Tangent,
    Arctangent,
    Cosine,
    Arccosine,
    Pi,
    E,
    Log,
    Random,
    Add,
    Subtract,
    Multiply,
    Divide,
    Power,
    Equals,
    Modulo,
    Truncate,
    Factorize,
    Prime,
    Range,
    ProgramMethod,
    ShortProgramMethod,
    UseCount,
    UseName,
    Wait,
    File,
    Write,
    Shell,
    Eval,
    Value(u8),
}

/// Why an enrichment request failed.
#[derive(Clone, Debug, PartialEq, Eq)]
pub enum EnrichError {
    /// No program is cached under the requested filename; the caller must
    /// load and supply it first.
    MissingProgram { name: String },
    /// The requested method index is not present in the named file.
    IndexOutOfRange { name: String, index: usize },
}

/// The execution-level counterpart of one raw operation.
pub open spec fn base_op_of(op: ParserOperation) -> Operation {
    match op {
        ParserOperation::IfNot => Operation::IfNot,
        ParserOperation::If => Operation::If,
        ParserOperation::BeginBlock => Operation::BeginBlock,
        ParserOperation::EndBlock => Operation::EndBlock,
        ParserOperation::Repeat => Operation::Repeat,
        ParserOperation::End => Operation::End,
        ParserOperation::Exit => Operation::Exit,
        ParserOperation::Teleport => Operation::Teleport,
        ParserOperation::MoveLeft => Operation::MoveLeft,
        ParserOperation::MoveRight => Operation::MoveRight,
        ParserOperation::DoubleQuote => Operation::DoubleQuote,
        ParserOperation::SingleQuote => Operation::SingleQuote,
        ParserOperation::CallMethod => Operation::Method,
        ParserOperation::Input => Operation::Input,
        ParserOperation::InputLength => Operation::InputLength,
        ParserOperation::Length => Operation::Length,
        ParserOperation::GetAllInput => Operation::GetAllInput,
        ParserOperation::OutputAll => Operation::OutputAll,
        ParserOperation::OutputChar => Operation::OutputChar,
        ParserOperation::OutputNumeric => Operation::OutputNumeric,
        ParserOperation::GetLine => Operation::GetLine,
        ParserOperation::Switch => Operation::Switch,
        ParserOperation::MultiSwitch => Operation::MultiSwitch,
        ParserOperation::RotateRight => Operation::RotateRight,
        ParserOperation::RotateLeft => Operation::RotateLeft,
        ParserOperation::Reverse => Operation::Reverse,
        ParserOperation::Part => Operation::Part,
        ParserOperation::Duplicate => Operation::Duplicate,
        ParserOperation::Remove => Operation::Remove,
        ParserOperation::Object => Operation::Object,
        ParserOperation::NewStack => Operation::NewStack,
        ParserOperation::RemoveStack => Operation::RemoveStack,
        ParserOperation::CloneStack => Operation::CloneStack,
        ParserOperation::RightStack => Operation::RightStack,
        ParserOperation::LeftStack => Operation::LeftStack,
        ParserOperation::Flatten => Operation::Flatten,
        ParserOperation::StackCount => Operation::StackCount,
        ParserOperation::TemporaryVariable => Operation::TemporaryVariable,
        ParserOperation::FinalVariable => Operation::FinalVariable,
        ParserOperation::Sine => Operation::Sine,
        ParserOperation::Arcsine => Operation::Arcsine,
        ParserOperation::Tangent => Operation::Tangent,
        ParserOperation::Arctangent => Operation::Arctangent,
        ParserOperation::Cosine => Operation::Cosine,
        ParserOperation::Arccosine => Operation::Arccosine,
        ParserOperation::Pi => Operation::Pi,
        ParserOperation::E => Operation::E,
        ParserOperation::Log => Operation::Log,
        ParserOperation::Random => Operation::Random,
        ParserOperation::Add => Operation::Add,
        ParserOperation::Subtract => Operation::Subtract,
        ParserOperation::Multiply => Operation::Multiply,
        ParserOperation::Divide => Operation::Divide,
        ParserOperation::Power => Operation::Power,
        ParserOperation::Equals => Operation::Equals,
        ParserOperation::Modulo => Operation::Modulo,
        ParserOperation::Truncate => Operation::Truncate,
        ParserOperation::Factorize => Operation::Factorize,
        ParserOperation::Prime => Operation::Prime,
        ParserOperation::Range => Operation::Range,
        ParserOperation::CallProgramMethod => Operation::ProgramMethod,
        ParserOperation::CallShortProgramMethod => Operation::ShortProgramMethod,
        ParserOperation::UseCount => Operation::UseCount,
        ParserOperation::UseName => Operation::UseName,
        ParserOperation::Wait => Operation::Wait,
        ParserOperation::File => Operation::File,
        ParserOperation::Write => Operation::Write,
        ParserOperation::Shell => Operation::Shell,
        ParserOperation::Eval => Operation::Eval,
        ParserOperation::Value(v) => Operation::Value(v),
    }
}

/// What enriching one raw method body yields: each operation translated to
/// its execution-level counterpart and passed through the decoration seam,
/// which today decorates every operation with nothing.
pub open spec fn enriched_ops(ops: Seq<ParserOperation>) -> Seq<Operation> {
    ops.map_values(|op: ParserOperation| base_op_of(op))
}

/// The execution-level counterpart of one raw operation.
fn base_op(op: &ParserOperation) -> (r: Operation)
    ensures
        r == base_op_of(*op),
{
    match op {
        ParserOperation::IfNot => Operation::IfNot,
        ParserOperation::If => Operation::If,
        ParserOperation::BeginBlock => Operation::BeginBlock,
        ParserOperation::EndBlock => Operation::EndBlock,
        ParserOperation::Repeat => Operation::Repeat,
        ParserOperation::End => Operation::End,
        ParserOperation::Exit => Operation::Exit,
        ParserOperation::Teleport => Operation::Teleport,
        ParserOperation::MoveLeft => Operation::MoveLeft,
        ParserOperation::MoveRight => Operation::MoveRight,
        ParserOperation::DoubleQuote => Operation::DoubleQuote,
        ParserOperation::SingleQuote => Operation::SingleQuote,
        ParserOperation::CallMethod => Operation::Method,
        ParserOperation::Input => Operation::Input,
        ParserOperation::InputLength => Operation::InputLength,
        ParserOperation::Length => Operation::Length,
        ParserOperation::GetAllInput => Operation::GetAllInput,
        ParserOperation::OutputAll => Operation::OutputAll,
        ParserOperation::OutputChar => Operation::OutputChar,
        ParserOperation::OutputNumeric => Operation::OutputNumeric,
        ParserOperation::GetLine => Operation::GetLine,
        ParserOperation::Switch => Operation::Switch,
        ParserOperation::MultiSwitch => Operation::MultiSwitch,
        ParserOperation::RotateRight => Operation::RotateRight,
        ParserOperation::RotateLeft => Operation::RotateLeft,
        ParserOperation::Reverse => Operation::Reverse,
        ParserOperation::Part => Operation::Part,
        ParserOperation::Duplicate => Operation::Duplicate,
        ParserOperation::Remove => Operation::Remove,
        ParserOperation::Object => Operation::Object,
        ParserOperation::NewStack => Operation::NewStack,
        ParserOperation::RemoveStack => Operation::RemoveStack,
        ParserOperation::CloneStack => Operation::CloneStack,
        ParserOperation::RightStack => Operation::RightStack,
        ParserOperation::LeftStack => Operation::LeftStack,
        ParserOperation::Flatten => Operation::Flatten,
        ParserOperation::StackCount => Operation::StackCount,
        ParserOperation::TemporaryVariable => Operation::TemporaryVariable,
        ParserOperation::FinalVariable => Operation::FinalVariable,
        ParserOperation::Sine => Operation::Sine,
        ParserOperation::Arcsine => Operation::Arcsine,
        ParserOperation::Tangent => Operation::Tangent,
        ParserOperation::Arctangent => Operation::Arctangent,
        ParserOperation::Cosine => Operation::Cosine,
        ParserOperation::Arccosine => Operation::Arccosine,
        ParserOperation::Pi => Operation::Pi,
        ParserOperation::E => Operation::E,
        ParserOperation::Log => Operation::Log,
        ParserOperation::Random => Operation::Random,
        ParserOperation::Add => Operation::Add,
        ParserOperation::Subtract => Operation::Subtract,
        ParserOperation::Multiply => Operation::Multiply,
        ParserOperation::Divide => Operation::Divide,
        ParserOperation::Power => Operation::Power,
        ParserOperation::Equals => Operation::Equals,
        ParserOperation::Modulo => Operation::Modulo,
        ParserOperation::Truncate => Operation::Truncate,
        ParserOperation::Factorize => Operation::Factorize,
        ParserOperation::Prime => Operation::Prime,
        ParserOperation::Range => Operation::Range,
        ParserOperation::CallProgramMethod => Operation::ProgramMethod,
        ParserOperation::CallShortProgramMethod => Operation::ShortProgramMethod,
        ParserOperation::UseCount => Operation::UseCount,
        ParserOperation::UseName => Operation::UseName,
        ParserOperation::Wait => Operation::Wait,
        ParserOperation::File => Operation::File,
        ParserOperation::Shell => Operation::Shell,
        ParserOperation::Write => Operation::Write,
        ParserOperation::Eval => Operation::Eval,
        ParserOperation::Value(v) => Operation::Value(*v),
    }
}

/// Translate a raw method body into its execution-level operations, one for
/// one.
pub fn base_ops(ops: &Vec<ParserOperation>) -> (r: Vec<Operation>)
    ensures
        r@ == enriched_ops(ops@),
{
    let mut r: Vec<Operation> = Vec::new();
    let mut i: usize = 0;
    while i < ops.len()
        invariant
            i <= ops@.len(),
            r@.len() == i,
            forall|k: int| 0 <= k < i ==> r@[k] == base_op_of(#[trigger] ops@[k]),
        decreases ops@.len() - i,
    {
        let op = base_op(&ops[i]);
        r.push(op);
        i += 1;
    }
    proof {
        assert(r@ =~= enriched_ops(ops@));
    }
    r
}

/// The per-operation enrichment seam: the one point where an execution
/// backend decorates an operation with whatever resolved information it
/// needs (a call-target index, a validated literal range).  No backend is
/// wired in here, so the decoration leaves every operation unchanged and
/// never rejects one; a backend supplies its own transforms against this
/// contract.
pub fn enrich_op(op: &mut Operation) -> (r: Result<(), EnrichError>)
    ensures
        r is Ok,
        *final(op) == *old(op),
{
    Ok(())
}

/// The enricher's mathematical state: the programs cached by filename and
/// the enriched bodies cached by (filename, method index).
pub ghost struct EnricherView {
    pub programs: Map<Seq<char>, ProgramView>,
    pub methods: Map<(Seq<char>, int), Seq<Operation>>,
}

/// The map a method-cache entry list denotes.
pub open spec fn methods_map(entries: Seq<(String, usize, Vec<Operation>)>) -> Map<
    (Seq<char>, int),
    Seq<Operation>,
>
    decreases entries.len(),
{
    if entries.len() == 0 {
        Map::<(Seq<char>, int), Seq<Operation>>::empty()
    } else {
        methods_map(entries.drop_last()).insert(
            (entries.last().0@, entries.last().1 as int),
            entries.last().2@,
        )
    }
}

/// The enrichment cache.  The outer layer caches parsed programs by
/// filename; the inner layer caches each enriched method body by (filename,
/// index), so every body is translated and decorated at most once and all
/// callers observe the one cached result.
pub struct Enricher {
    programs: Vec<(String, ParserProgram)>,
    methods: Vec<(String, usize, Vec<Operation>)>,
}

impl View for Enricher {
    type V = EnricherView;

    closed spec fn view(&self) -> EnricherView {
        EnricherView { programs: graph_map(self.programs@), methods: methods_map(self.methods@) }
    }
}

impl Enricher {
    /// Every cached method body belongs to a cached program, lies in range,
    /// and holds exactly that method's enriched operations.
    pub closed spec fn wf(&self) -> bool {
        forall|n: Seq<char>, i: int| #[trigger]
            self@.methods.dom().contains((n, i)) ==> self@.programs.dom().contains(n) && 0 <= i
                < self@.programs[n].methods.len() && self@.methods[(n, i)] == enriched_ops(
                self@.programs[n].methods[i],
            )
    }

    /// An empty cache.
    pub fn new() -> (r: Enricher)
        ensures
            r@.programs == Map::<Seq<char>, ProgramView>::empty(),
            r@.methods == Map::<(Seq<char>, int), Seq<Operation>>::empty(),
            r.wf(),
    {
        Enricher { programs: Vec::new(), methods: Vec::new() }
    }

    /// Whether a program is cached under `name`.
    pub fn has_program(&self, name: &String) -> (r: bool)
        ensures
            r == self@.programs.dom().contains(name@),
    {
        let mut i = self.programs.len();
        proof {
            assert(self.programs@.take(self.programs@.len() as int) =~= self.programs@);
        }
        while i > 0
            invariant
                i <= self.programs@.len(),
                self@.programs.dom().contains(name@) <==> graph_map(
                    self.programs@.take(i as int),
                ).dom().contains(name@),
            decreases i,
        {
            proof {
                assert(self.programs@.take(i as int).drop_last() =~= self.programs@.take(i - 1));
                assert(self.programs@.take(i as int).last() == self.programs@[i - 1]);
            }
            let entry = &self.programs[i - 1];
            if entry.0.eq(name) {
                return true;
            }
            i -= 1;
        }
        proof {
            assert(self.programs@.take(0) =~= Seq::<(String, ParserProgram)>::empty());
        }
        false
    }

    /// Cache a parsed program under `name`.  The first program supplied for
    /// a filename wins: a later one for the same name is refused, and the
    /// cache is unchanged.
    pub fn supply_program(&mut self, name: String, program: ParserProgram) -> (r: bool)
        requires
            old(self).wf(),
        ensures
            final(self).wf(),
            r == !old(self)@.programs.dom().contains(name@),
            r ==> final(self)@.programs == old(self)@.programs.insert(name@, program@)
                && final(self)@.methods == old(self)@.methods,
            !r ==> *final(self) == *old(self),
    {
        if self.has_program(&name) {
            return false;
        }
        let ghost before = self.programs@;
        let ghost namev = name@;
        self.programs.push((name, program));
        proof {
            assert(self.programs@.drop_last() =~= before);
            assert forall|n: Seq<char>, i: int| #[trigger]
                self@.methods.dom().contains((n, i)) implies self@.programs.dom().contains(n) && 0
                <= i < self@.programs[n].methods.len() && self@.methods[(n, i)] == enriched_ops(
                self@.programs[n].methods[i],
            ) by {
                assert(old(self)@.methods.dom().contains((n, i)));
                assert(n != namev);
            }
        }
        true
    }

    /// Look a cached method body up by (filename, index).
    fn cached_method(&self, name: &String, index: usize) -> (r: Option<&Vec<Operation>>)
        ensures
            r matches Some(ops) ==> self@.methods.dom().contains((name@, index as int))
                && self@.methods[(name@, index as int)] == ops@,
            r is None ==> !self@.methods.dom().contains((name@, index as int)),
    {
        let mut i = self.methods.len();
        proof {
            assert(self.methods@.take(self.methods@.len() as int) =~= self.methods@);
        }
        while i > 0
            invariant
                i <= self.methods@.len(),
                self@.methods.dom().contains((name@, index as int)) <==> methods_map(
                    self.methods@.take(i as int),
                ).dom().contains((name@, index as int)),
                self@.methods.dom().contains((name@, index as int)) ==> self@.methods[
                    (name@, index as int)
                ] == methods_map(self.methods@.take(i as int))[(name@, index as int)],
            decreases i,
        {
            proof {
                assert(self.methods@.take(i as int).drop_last() =~= self.methods@.take(i - 1));
                assert(self.methods@.take(i as int).last() == self.methods@[i - 1]);
            }
            let entry = &self.methods[i - 1];
            if entry.0.eq(name) && entry.1 == index {
                return Some(&entry.2);
            }
            i -= 1;
        }
        proof {
            assert(self.methods@.take(0) =~= Seq::<(String, usize, Vec<Operation>)>::empty());
        }
        None
    }

    /// Look a cached program up by name.
    fn cached_program(&self, name: &String) -> (r: Option<&ParserProgram>)
        ensures
            r matches Some(p) ==> self@.programs.dom().contains(name@) && p@
                == self@.programs[name@],
            r is None ==> !self@.programs.dom().contains(name@),
    {
        let mut i = self.programs.len();
        proof {
            assert(self.programs@.take(self.programs@.len() as int) =~= self.programs@);
        }
        while i > 0
            invariant
                i <= self.programs@.len(),
                self@.programs.dom().contains(name@) <==> graph_map(
                    self.programs@.take(i as int),
                ).dom().contains(name@),
                self@.programs.dom().contains(name@) ==> self@.programs[name@] == graph_map(
                    self.programs@.take(i as int),
                )[name@],
            decreases i,
        {
            proof {
                assert(self.programs@.take(i as int).drop_last() =~= self.programs@.take(i - 1));
                assert(self.programs@.take(i as int).last() == self.programs@[i - 1]);
            }
            let entry = &self.programs[i - 1];
            if entry.0.eq(name) {
                return Some(&entry.1);
            }
            i -= 1;
        }
        proof {
            assert(self.programs@.take(0) =~= Seq::<(String, ParserProgram)>::empty());
        }
        None
    }

    /// The enriched operation list of method `index` of the file `name`:
    /// the cached list if the pair was requested before, otherwise the
    /// method's operations, translated and decorated once and cached.  Fails
    /// with `MissingProgram` exactly when no program is cached under `name`,
    /// and with `IndexOutOfRange` exactly when the file has no method
    /// `index`; the cache is unchanged on failure.
    pub fn enrich_method(&mut self, name: &String, index: usize) -> (r: Result<
        Vec<Operation>,
        EnrichError,
    >)
        requires
            old(self).wf(),
        ensures
            final(self).wf(),
            final(self)@.programs == old(self)@.programs,
            !old(self)@.programs.dom().contains(name@) ==> {
                &&& r matches Err(EnrichError::MissingProgram { name: n }) && n@ == name@
                &&& *final(self) == *old(self)
            },
            old(self)@.programs.dom().contains(name@) && index
                >= old(self)@.programs[name@].methods.len() ==> {
                &&& r matches Err(EnrichError::IndexOutOfRange { name: n, index: i }) && n@
                    == name@ && i == index
                &&& *final(self) == *old(self)
            },
            old(self)@.programs.dom().contains(name@) && index
                < old(self)@.programs[name@].methods.len() ==> {
                &&& r matches Ok(ops)
                &&& ops@ == enriched_ops(old(self)@.programs[name@].methods[index as int])
                &&& final(self)@.methods == old(self)@.methods.insert(
                    (name@, index as int),
                    ops@,
                )
            },
    {
        match self.cached_method(name, index) {
            Some(_) => {},
            None => {
                let prog = match self.cached_program(name) {
                    None => {
                        return Err(EnrichError::MissingProgram { name: clone_string(name) });
                    },
                    Some(p) => p,
                };
                if index >= prog.methods.len() {
                    return Err(
                        EnrichError::IndexOutOfRange { name: clone_string(name), index },
                    );
                }
                let mut ops = base_ops(&prog.methods[index].ops);
                let mut k: usize = 0;
                while k < ops.len()
                    invariant
                        k <= ops@.len(),
                        ops@ == enriched_ops(
                            old(self)@.programs[name@].methods[index as int],
                        ),
                    decreases ops@.len() - k,
                {
                    let ghost opsv = ops@;
                    match enrich_op(&mut ops[k]) {
                        Ok(()) => {},
                        Err(_) => {
                            proof {
                                assert(false);
                            }
                            return Err(
                                EnrichError::IndexOutOfRange {
                                    name: clone_string(name),
                                    index,
                                },
                            );
                        },
                    }
                    proof {
                        assert(ops@ =~= opsv);
                    }
                    k += 1;
                }
                let ghost mbefore = self.methods@;
                let stored = copy_operations(&ops);
                self.methods.push((clone_string(name), index, stored));
                proof {
                    assert(self.methods@.drop_last() =~= mbefore);
                }
                return Ok(ops);
            },
        }
        // the pair is cached: hand the cached body out again
        let cached = match self.cached_method(name, index) {
            Some(c) => c,
            None => {
                proof {
                    assert(false);
                }
                return Err(EnrichError::MissingProgram { name: clone_string(name) });
            },
        };
        let ops = copy_operations(cached);
        proof {
            assert(old(self)@.methods.insert((name@, index as int), ops@) =~= old(self)@.methods);
        }
        Ok(ops)
    }
}

/// A copy of an operation list.
fn copy_operations(ops: &Vec<Operation>) -> (r: Vec<Operation>)
    ensures
        r@ == ops@,
{
    let mut r: Vec<Operation> = Vec::new();
    let mut i: usize = 0;
    while i < ops.len()
        invariant
            i <= ops@.len(),
            r@ == ops@.take(i as int),
        decreases ops@.len() - i,
    {
        r.push(ops[i]);
        proof {
            assert(r@ =~= ops@.take(i + 1 as int));
        }
        i += 1;
    }
    proof {
        assert(ops@.take(ops@.len() as int) =~= ops@);
    }
    r
}

/// Enrich method 0 of a single already-parsed program: the body handed to a
/// backend to start execution.  Fails with `IndexOutOfRange` exactly when
/// the program has no methods.
pub fn enrich(name: String, program: ParserProgram) -> (r: Result<Program, EnrichError>)
    ensures
        program@.methods.len() > 0 ==> {
            &&& r matches Ok(p)
            &&& p.ops@ == enriched_ops(program@.methods[0])
        },
        program@.methods.len() == 0 ==> {
            &&& r matches Err(EnrichError::IndexOutOfRange { name: n, index: i })
            &&& n@ == name@
            &&& i == 0
        },
{
    let mut cache = Enricher::new();
    cache.supply_program(clone_string(&name), program);
    match cache.enrich_method(&name, 0) {
        Ok(ops) => Ok(Program { ops }),
        Err(e) => Err(e),
    }
}

/// Enrichment idempotence: once a (filename, index) pair has been enriched
/// and cached, a second request against the resulting cache state is pinned
/// to the very value the first request returned and cached — the same
/// operation list, never a distinct recomputation.
pub proof fn lemma_enrichment_idempotent(v: EnricherView, name: Seq<char>, index: int)
    requires
        v.programs.dom().contains(name),
        0 <= index < v.programs[name].methods.len(),
    ensures
        ({
            let first = enriched_ops(v.programs[name].methods[index]);
            let after = EnricherView {
                programs: v.programs,
                methods: v.methods.insert((name, index), first),
            };
            after.methods[(name, index)] == first && enriched_ops(
                after.programs[name].methods[index],
            ) == first
        }),
{
}

} // verus!
