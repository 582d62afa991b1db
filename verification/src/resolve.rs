//! Multi-file dependency resolution.
//!
//! A program may extend or use other files by relative path.  [`Resolver`] is
//! the resolution state machine: it keeps a worklist of filenames to explore
//! and the graph of programs loaded so far, and guarantees that no filename is
//! requested twice — the single-parse discipline.  Callers that read real
//! storage drive it one file at a time ([`Resolver::next_request`] /
//! [`Resolver::supply`]); [`parse`] drives it to completion over an in-memory
//! [`FileSet`], and its termination proof is the cycle-safety argument: a
//! cyclic extend/use graph resolves rather than recursing without bound.

use vstd::prelude::*;
use crate::parse::{methods_view, parse_source, parse_spec, Method, Operation, ParseError,
    ParserProgram, Program, ProgramView};

verus! {

broadcast use vstd::set_lib::group_set_lib_default;

/// Why resolution failed: the first fault anywhere in the reachable graph
/// aborts the whole run, naming the offending file.
#[derive(Clone, Debug, PartialEq, Eq)]
pub enum ResolveError {
    /// The named file is missing from storage or unreadable.
    Io { name: String },
    /// The named file was read but rejected by the grammar.
    Parse { name: String, error: ParseError },
}

/// An in-memory store of source texts keyed by filename: what resolution
/// reads in place of storage.
pub struct FileSet {
    entries: Vec<(String, String)>,
}

/// The map an entry list denotes; a later entry for the same name shadows an
/// earlier one.
pub open spec fn files_map(entries: Seq<(String, String)>) -> Map<Seq<char>, Seq<char>>
    decreases entries.len(),
{
    if entries.len() == 0 {
        Map::<Seq<char>, Seq<char>>::empty()
    } else {
        files_map(entries.drop_last()).insert(entries.last().0@, entries.last().1@)
    }
}

impl View for FileSet {
    type V = Map<Seq<char>, Seq<char>>;

    closed spec fn view(&self) -> Map<Seq<char>, Seq<char>> {
        files_map(self.entries@)
    }
}

impl FileSet {
    /// An empty store.
    pub fn new() -> (r: FileSet)
        ensures
            r@ == Map::<Seq<char>, Seq<char>>::empty(),
    {
        FileSet { entries: Vec::new() }
    }

    /// Add a file, replacing any earlier text under the same name.
    pub fn insert(&mut self, name: String, text: String)
        ensures
            final(self)@ == old(self)@.insert(name@, text@),
    {
        let ghost before = self.entries@;
        self.entries.push((name, text));
        proof {
            assert(self.entries@.drop_last() =~= before);
        }
    }

    /// Look a file up by name.
    pub fn get(&self, name: &String) -> (r: Option<&String>)
        ensures
            r matches Some(t) ==> self@.dom().contains(name@) && self@[name@] == t@,
            r is None ==> !self@.dom().contains(name@),
    {
        let mut i = self.entries.len();
        proof {
            assert(self.entries@.take(self.entries@.len() as int) =~= self.entries@);
        }
        while i > 0
            invariant
                i <= self.entries@.len(),
                self@.dom().contains(name@) <==> files_map(self.entries@.take(i as int)).dom()
                    .contains(name@),
                self@.dom().contains(name@) ==> self@[name@] == files_map(
                    self.entries@.take(i as int),
                )[name@],
            decreases i,
        {
            proof {
                assert(self.entries@.take(i as int).drop_last() =~= self.entries@.take(i - 1));
                assert(self.entries@.take(i as int).last() == self.entries@[i - 1]);
            }
            let entry = &self.entries[i - 1];
            if entry.0.eq(name) {
                return Some(&entry.1);
            }
            i -= 1;
        }
        proof {
            assert(self.entries@.take(0) =~= Seq::<(String, String)>::empty());
        }
        None
    }
}

/// The resolver's mathematical state: the pending worklist and the graph of
/// loaded programs, keyed by filename.
pub ghost struct ResolverView {
    pub queue: Seq<Seq<char>>,
    pub graph: Map<Seq<char>, ProgramView>,
}

/// The map a loaded-program list denotes.
pub open spec fn graph_map(entries: Seq<(String, ParserProgram)>) -> Map<Seq<char>, ProgramView>
    decreases entries.len(),
{
    if entries.len() == 0 {
        Map::<Seq<char>, ProgramView>::empty()
    } else {
        graph_map(entries.drop_last()).insert(entries.last().0@, entries.last().1@)
    }
}

/// The next filename the resolver will ask for: the topmost worklist entry
/// that is not already loaded.  Worklist entries naming loaded files are
/// skipped — a target queued twice is loaded once.
pub open spec fn next_of(queue: Seq<Seq<char>>, dom: Set<Seq<char>>) -> Option<Seq<char>>
    decreases queue.len(),
{
    if queue.len() == 0 {
        None
    } else if dom.contains(queue.last()) {
        next_of(queue.drop_last(), dom)
    } else {
        Some(queue.last())
    }
}

/// The worklist after the next request is served: the skipped entries and the
/// requested name are gone.
pub open spec fn popped(queue: Seq<Seq<char>>, dom: Set<Seq<char>>) -> Seq<Seq<char>>
    decreases queue.len(),
{
    if queue.len() == 0 {
        queue
    } else if dom.contains(queue.last()) {
        popped(queue.drop_last(), dom)
    } else {
        queue.drop_last()
    }
}

/// Single-parse: a file already in the graph is never requested again, so
/// each file is read from storage at most once per resolution run.
pub proof fn lemma_loaded_never_requested(queue: Seq<Seq<char>>, dom: Set<Seq<char>>, n: Seq<char>)
    requires
        dom.contains(n),
    ensures
        next_of(queue, dom) != Some(n),
    decreases queue.len(),
{
    if queue.len() > 0 && dom.contains(queue.last()) {
        lemma_loaded_never_requested(queue.drop_last(), dom, n);
    }
}

/// What the resolver asks for, it does not yet have.
proof fn lemma_next_not_loaded(queue: Seq<Seq<char>>, dom: Set<Seq<char>>, n: Seq<char>)
    requires
        next_of(queue, dom) == Some(n),
    ensures
        !dom.contains(n),
        queue.contains(n),
    decreases queue.len(),
{
    if queue.len() > 0 && dom.contains(queue.last()) {
        lemma_next_not_loaded(queue.drop_last(), dom, n);
        assert(queue.drop_last()[queue.drop_last().index_of(n)] == queue[queue.drop_last().index_of(
            n,
        )]);
    }
}

/// When the resolver is done, every queued name is already loaded.
proof fn lemma_done_queue_loaded(queue: Seq<Seq<char>>, dom: Set<Seq<char>>, i: int)
    requires
        next_of(queue, dom) is None,
        0 <= i < queue.len(),
    ensures
        dom.contains(queue[i]),
    decreases queue.len(),
{
    if i < queue.len() - 1 {
        lemma_done_queue_loaded(queue.drop_last(), dom, i);
    }
}

/// The dependency resolver: a worklist of filenames still to explore and the
/// graph of programs loaded so far.  The worklist is seeded with the root;
/// serving a request parses one file and queues its extend/use targets.
pub struct Resolver {
    queue: Vec<String>,
    loaded: Vec<(String, ParserProgram)>,
}

impl View for Resolver {
    type V = ResolverView;

    closed spec fn view(&self) -> ResolverView {
        ResolverView {
            queue: self.queue@.map_values(|n: String| n@),
            graph: graph_map(self.loaded@),
        }
    }
}

impl Resolver {
    /// Start a resolution run rooted at `root`.
    pub fn new(root: String) -> (r: Resolver)
        ensures
            r@.queue == seq![root@],
            r@.graph == Map::<Seq<char>, ProgramView>::empty(),
    {
        let mut queue: Vec<String> = Vec::new();
        queue.push(root);
        let r = Resolver { queue, loaded: Vec::new() };
        proof {
            assert(r@.queue =~= seq![root@]);
        }
        r
    }

    /// Whether a file is already loaded.
    pub fn is_loaded(&self, name: &String) -> (r: bool)
        ensures
            r == self@.graph.dom().contains(name@),
    {
        let mut i = self.loaded.len();
        proof {
            assert(self.loaded@.take(self.loaded@.len() as int) =~= self.loaded@);
        }
        while i > 0
            invariant
                i <= self.loaded@.len(),
                self@.graph.dom().contains(name@) <==> graph_map(
                    self.loaded@.take(i as int),
                ).dom().contains(name@),
            decreases i,
        {
            proof {
                assert(self.loaded@.take(i as int).drop_last() =~= self.loaded@.take(i - 1));
                assert(self.loaded@.take(i as int).last() == self.loaded@[i - 1]);
            }
            let entry = &self.loaded[i - 1];
            if entry.0.eq(name) {
                return true;
            }
            i -= 1;
        }
        proof {
            assert(self.loaded@.take(0) =~= Seq::<(String, ParserProgram)>::empty());
        }
        false
    }

    /// Look a loaded program up by name.
    pub fn get_program(&self, name: &String) -> (r: Option<&ParserProgram>)
        ensures
            r matches Some(p) ==> self@.graph.dom().contains(name@) && p@ == self@.graph[name@],
            r is None ==> !self@.graph.dom().contains(name@),
    {
        let mut i = self.loaded.len();
        proof {
            assert(self.loaded@.take(self.loaded@.len() as int) =~= self.loaded@);
        }
        while i > 0
            invariant
                i <= self.loaded@.len(),
                self@.graph.dom().contains(name@) <==> graph_map(
                    self.loaded@.take(i as int),
                ).dom().contains(name@),
                self@.graph.dom().contains(name@) ==> self@.graph[name@] == graph_map(
                    self.loaded@.take(i as int),
                )[name@],
            decreases i,
        {
            proof {
                assert(self.loaded@.take(i as int).drop_last() =~= self.loaded@.take(i - 1));
                assert(self.loaded@.take(i as int).last() == self.loaded@[i - 1]);
            }
            let entry = &self.loaded[i - 1];
            if entry.0.eq(name) {
                return Some(&entry.1);
            }
            i -= 1;
        }
        proof {
            assert(self.loaded@.take(0) =~= Seq::<(String, ParserProgram)>::empty());
        }
        None
    }

    /// The next file the run needs from storage, or `None` when resolution is
    /// complete.  The answer is never a file that is already loaded.
    pub fn next_request(&self) -> (r: Option<String>)
        ensures
            r matches Some(n) ==> next_of(self@.queue, self@.graph.dom()) == Some(n@),
            r is None ==> next_of(self@.queue, self@.graph.dom()) is None,
    {
        let mut i = self.queue.len();
        proof {
            assert(self@.queue.take(self@.queue.len() as int) =~= self@.queue);
        }
        while i > 0
            invariant
                i <= self.queue@.len(),
                next_of(self@.queue, self@.graph.dom()) == next_of(
                    self@.queue.take(i as int),
                    self@.graph.dom(),
                ),
            decreases i,
        {
            proof {
                assert(self@.queue.take(i as int).drop_last() =~= self@.queue.take(i - 1));
                assert(self@.queue.take(i as int).last() == self@.queue[i - 1]);
            }
            let name = &self.queue[i - 1];
            if !self.is_loaded(name) {
                return Some(name.clone());
            }
            i -= 1;
        }
        proof {
            assert(self@.queue.take(0) =~= Seq::<Seq<char>>::empty());
        }
        None
    }

    /// Serve the pending request: parse the text read for `name`, record the
    /// program under `name`, and queue its extend and use targets.  On a
    /// parse failure the run is unchanged and the error names the file.
    pub fn supply(&mut self, name: String, text: &str) -> (r: Result<(), ResolveError>)
        requires
            next_of(old(self)@.queue, old(self)@.graph.dom()) == Some(name@),
        ensures
            r is Ok ==> {
                &&& parse_spec(text@) matches Ok(pv)
                &&& final(self)@.graph == old(self)@.graph.insert(name@, pv)
                &&& final(self)@.queue == popped(old(self)@.queue, old(self)@.graph.dom())
                    + pv.extends + pv.uses
            },
            r matches Err(e) ==> {
                &&& e matches ResolveError::Parse { name: n, error: pe } && n@ == name@
                    && parse_spec(text@) == Err::<ProgramView, ParseError>(pe)
                &&& *final(self) == *old(self)
            },
    {
        let program = match parse_source(text) {
            Err(e) => {
                return Err(ResolveError::Parse { name, error: e });
            },
            Ok(p) => p,
        };
        loop
            invariant_except_break
                self.loaded == old(self).loaded,
                next_of(self@.queue, self@.graph.dom()) == Some(name@),
                popped(self@.queue, self@.graph.dom()) == popped(
                    old(self)@.queue,
                    old(self)@.graph.dom(),
                ),
            ensures
                self.loaded == old(self).loaded,
                self@.queue == popped(old(self)@.queue, old(self)@.graph.dom()),
            decreases self.queue@.len(),
        {
            proof {
                if self@.queue.len() > 0 {
                    assert(self@.queue.drop_last() =~= self.queue@.drop_last().map_values(
                        |n: String| n@,
                    ));
                }
            }
            let top = match self.queue.pop() {
                Some(t) => t,
                None => {
                    proof {
                        assert(false);
                    }
                    return Err(ResolveError::Io { name });
                },
            };
            if !self.is_loaded(&top) {
                break;
            }
        }
        let ghost qbase = self@.queue;
        let mut k: usize = 0;
        while k < program.extends.len()
            invariant
                self.loaded == old(self).loaded,
                k <= program.extends@.len(),
                self@.queue == qbase + program@.extends.take(k as int),
            decreases program.extends@.len() - k,
        {
            let ghost qprev = self@.queue;
            let t = &program.extends[k];
            self.queue.push(clone_string(&t.target));
            proof {
                assert(self@.queue =~= qprev.push(program@.extends[k as int]));
                assert(qbase + program@.extends.take(k + 1 as int) =~= qprev.push(
                    program@.extends[k as int],
                ));
            }
            k += 1;
        }
        proof {
            assert(program@.extends.take(program.extends@.len() as int) =~= program@.extends);
        }
        let ghost qext = self@.queue;
        let mut k2: usize = 0;
        while k2 < program.uses.len()
            invariant
                self.loaded == old(self).loaded,
                k2 <= program.uses@.len(),
                self@.queue == qext + program@.uses.take(k2 as int),
            decreases program.uses@.len() - k2,
        {
            let ghost qprev = self@.queue;
            let t = &program.uses[k2];
            self.queue.push(clone_string(&t.target));
            proof {
                assert(self@.queue =~= qprev.push(program@.uses[k2 as int]));
                assert(qext + program@.uses.take(k2 + 1 as int) =~= qprev.push(
                    program@.uses[k2 as int],
                ));
            }
            k2 += 1;
        }
        proof {
            assert(program@.uses.take(program.uses@.len() as int) =~= program@.uses);
            assert(self@.queue =~= popped(old(self)@.queue, old(self)@.graph.dom())
                + program@.extends + program@.uses);
        }
        let ghost lbase = self.loaded@;
        let ghost pv = program@;
        self.loaded.push((name, program));
        proof {
            assert(self.loaded@.drop_last() =~= lbase);
        }
        Ok(())
    }
}

/// A copy of a string with the same characters.
pub(crate) fn clone_string(s: &String) -> (r: String)
    ensures
        r@ == s@,
{
    s.clone()
}

/// The filenames a program refers to: its extend targets, then its use
/// targets.
pub open spec fn refs_of(p: ProgramView) -> Seq<Seq<char>> {
    p.extends + p.uses
}

/// File `a` refers to file `b`: `a` is present, parses, and declares `b` as
/// an extend or use target.
pub open spec fn step_ref(files: Map<Seq<char>, Seq<char>>, a: Seq<char>, b: Seq<char>) -> bool {
    &&& files.dom().contains(a)
    &&& parse_spec(files[a]) matches Ok(p) && refs_of(p).contains(b)
}

pub open spec fn is_ref_path(files: Map<Seq<char>, Seq<char>>, path: Seq<Seq<char>>) -> bool {
    forall|i: int| 0 <= i < path.len() - 1 ==> #[trigger] step_ref(files, path[i], path[i + 1])
}

/// File `n` is transitively referenced from `root` through files that parse.
pub open spec fn reachable(
    files: Map<Seq<char>, Seq<char>>,
    root: Seq<char>,
    n: Seq<char>,
) -> bool {
    exists|path: Seq<Seq<char>>|
        path.len() >= 1 && path.first() == root && path.last() == n && is_ref_path(files, path)
}

/// Resolution succeeds exactly when every transitively referenced file is
/// present and parses.
pub open spec fn resolution_ok(files: Map<Seq<char>, Seq<char>>, root: Seq<char>) -> bool {
    forall|n: Seq<char>|
        reachable(files, root, n) ==> files.dom().contains(n) && parse_spec(files[n]) is Ok
}

/// The root reaches itself.
proof fn lemma_reachable_self(files: Map<Seq<char>, Seq<char>>, root: Seq<char>)
    ensures
        reachable(files, root, root),
{
    let path = seq![root];
    assert(path.len() >= 1 && path.first() == root && path.last() == root && is_ref_path(
        files,
        path,
    ));
}

/// Reachability follows references one step at a time.
proof fn lemma_reachable_step(
    files: Map<Seq<char>, Seq<char>>,
    root: Seq<char>,
    a: Seq<char>,
    b: Seq<char>,
)
    requires
        reachable(files, root, a),
        step_ref(files, a, b),
    ensures
        reachable(files, root, b),
{
    let path = choose|path: Seq<Seq<char>>|
        path.len() >= 1 && path.first() == root && path.last() == a && is_ref_path(files, path);
    let path2 = path.push(b);
    assert forall|i: int| 0 <= i < path2.len() - 1 implies #[trigger] step_ref(
        files,
        path2[i],
        path2[i + 1],
    ) by {
        if i < path.len() - 1 {
            assert(step_ref(files, path[i], path[i + 1]));
        }
    }
    assert(path2.len() >= 1 && path2.first() == root && path2.last() == b && is_ref_path(
        files,
        path2,
    ));
}

/// In a graph whose loaded programs agree with their files and whose
/// references are all loaded, every file on a reference path from a loaded
/// file is loaded.
proof fn lemma_path_loaded(
    files: Map<Seq<char>, Seq<char>>,
    graph: Map<Seq<char>, ProgramView>,
    path: Seq<Seq<char>>,
)
    requires
        path.len() >= 1,
        graph.dom().contains(path.first()),
        is_ref_path(files, path),
        forall|k: Seq<char>| #[trigger]
            graph.dom().contains(k) ==> files.dom().contains(k) && parse_spec(files[k])
                == Ok::<ProgramView, ParseError>(graph[k]),
        forall|k: Seq<char>, b: Seq<char>|
            graph.dom().contains(k) && #[trigger] refs_of(graph[k]).contains(b)
                ==> graph.dom().contains(b),
    ensures
        graph.dom().contains(path.last()),
    decreases path.len(),
{
    if path.len() >= 2 {
        let prefix = path.drop_last();
        assert forall|i: int| 0 <= i < prefix.len() - 1 implies #[trigger] step_ref(
            files,
            prefix[i],
            prefix[i + 1],
        ) by {
            assert(step_ref(files, path[i], path[i + 1]));
        }
        lemma_path_loaded(files, graph, prefix);
        let a = path[path.len() - 2];
        assert(step_ref(files, path[path.len() - 2], path[path.len() - 2 + 1]));
        assert(graph.dom().contains(a));
        assert(parse_spec(files[a])->Ok_0 == graph[a]);
        assert(refs_of(graph[a]).contains(path.last()));
    }
}

/// The served worklist is a prefix of the old one.
proof fn lemma_popped_prefix(queue: Seq<Seq<char>>, dom: Set<Seq<char>>)
    ensures
        popped(queue, dom).len() <= queue.len(),
        forall|i: int|
            0 <= i < popped(queue, dom).len() ==> #[trigger] popped(queue, dom)[i] == queue[i],
    decreases queue.len(),
{
    if queue.len() > 0 && dom.contains(queue.last()) {
        lemma_popped_prefix(queue.drop_last(), dom);
    }
}

/// Serving a request loses no worklist entry that still matters: every old
/// entry survives, is already loaded, or is the requested name itself.
proof fn lemma_popped_cover(queue: Seq<Seq<char>>, dom: Set<Seq<char>>, n: Seq<char>, i: int)
    requires
        next_of(queue, dom) == Some(n),
        0 <= i < queue.len(),
    ensures
        popped(queue, dom).contains(queue[i]) || dom.contains(queue[i]) || queue[i] == n,
    decreases queue.len(),
{
    if dom.contains(queue.last()) {
        if i < queue.len() - 1 {
            lemma_popped_cover(queue.drop_last(), dom, n, i);
        }
    } else {
        if i < queue.len() - 1 {
            assert(popped(queue, dom)[i] == queue[i]);
        }
    }
}

/// The store holds finitely many files.
proof fn lemma_files_map_finite(entries: Seq<(String, String)>)
    ensures
        files_map(entries).dom().finite(),
    decreases entries.len(),
{
    if entries.len() > 0 {
        lemma_files_map_finite(entries.drop_last());
    }
}

/// A copy of an operation list.
fn copy_ops(ops: &Vec<Operation>) -> (r: Vec<Operation>)
    ensures
        r@ == ops@,
{
    let mut r: Vec<Operation> = Vec::new();
    let mut i: usize = 0;
    while i < ops.len()
        invariant
            i <= ops@.len(),
            r@ == ops@.take(i as int),
        decreases ops@.len() - i,
    {
        r.push(ops[i]);
        proof {
            assert(r@ =~= ops@.take(i + 1 as int));
        }
        i += 1;
    }
    proof {
        assert(ops@.take(ops@.len() as int) =~= ops@);
    }
    r
}

/// A copy of a method list, method for method.
fn copy_methods(methods: &Vec<Method>) -> (r: Vec<Method>)
    ensures
        methods_view(r@) == methods_view(methods@),
{
    let mut r: Vec<Method> = Vec::new();
    let mut i: usize = 0;
    while i < methods.len()
        invariant
            i <= methods@.len(),
            r@.len() == i,
            forall|k: int| 0 <= k < i ==> #[trigger] r@[k].ops@ == methods@[k].ops@,
        decreases methods@.len() - i,
    {
        let ops = copy_ops(&methods[i].ops);
        r.push(Method { ops });
        i += 1;
    }
    proof {
        assert(methods_view(r@) =~= methods_view(methods@));
    }
    r
}

/// Resolve the program rooted at `name` against the in-memory store `files`,
/// loading every transitively referenced file exactly once.  Succeeds exactly
/// when every reachable file is present and parses; the first missing or
/// malformed file otherwise aborts the run, named in the error.  The loop's
/// termination measure is the set of store files not yet loaded, so a cyclic
/// extend/use graph (each file loaded once, then never requested again)
/// terminates rather than recursing without bound.
pub fn parse(name: String, files: &FileSet) -> (r: Result<Program, ResolveError>)
    ensures
        r matches Ok(p) ==> {
            &&& files@.dom().contains(name@)
            &&& parse_spec(files@[name@]) matches Ok(pv) && methods_view(p.methods@)
                == pv.methods
            &&& p.extends@.len() == 0
            &&& p.uses@.len() == 0
        },
        r is Ok <==> resolution_ok(files@, name@),
        r matches Err(ResolveError::Io { name: n }) ==> reachable(files@, name@, n@)
            && !files@.dom().contains(n@),
        r matches Err(ResolveError::Parse { name: n, error: e }) ==> {
            &&& reachable(files@, name@, n@)
            &&& files@.dom().contains(n@)
            &&& parse_spec(files@[n@]) == Err::<ProgramView, ParseError>(e)
        },
{
    let ghost root = name@;
    let ghost fm = files@;
    proof {
        lemma_files_map_finite_pub(files);
        lemma_reachable_self(fm, root);
    }
    let mut res = Resolver::new(clone_string(&name));
    proof {
        assert(res@.queue[0] == root);
        assert(res@.queue.contains(root));
    }
    loop
        invariant_except_break
            fm == files@,
            root == name@,
            fm.dom().finite(),
            forall|k: Seq<char>| #[trigger]
                res@.graph.dom().contains(k) ==> fm.dom().contains(k) && parse_spec(fm[k])
                    == Ok::<ProgramView, ParseError>(res@.graph[k]) && reachable(fm, root, k),
            forall|i: int|
                0 <= i < res@.queue.len() ==> reachable(fm, root, #[trigger] res@.queue[i]),
            forall|k: Seq<char>, b: Seq<char>|
                res@.graph.dom().contains(k) && #[trigger] refs_of(res@.graph[k]).contains(b)
                    ==> res@.graph.dom().contains(b) || res@.queue.contains(b),
            res@.graph.dom().contains(root) || res@.queue.contains(root),
        ensures
            fm == files@,
            root == name@,
            next_of(res@.queue, res@.graph.dom()) is None,
            forall|k: Seq<char>| #[trigger]
                res@.graph.dom().contains(k) ==> fm.dom().contains(k) && parse_spec(fm[k])
                    == Ok::<ProgramView, ParseError>(res@.graph[k]) && reachable(fm, root, k),
            forall|k: Seq<char>, b: Seq<char>|
                res@.graph.dom().contains(k) && #[trigger] refs_of(res@.graph[k]).contains(b)
                    ==> res@.graph.dom().contains(b) || res@.queue.contains(b),
            res@.graph.dom().contains(root) || res@.queue.contains(root),
        decreases fm.dom().difference(res@.graph.dom()).len(),
    {
        let n = match res.next_request() {
            None => {
                break;
            },
            Some(n) => n,
        };
        proof {
            lemma_next_not_loaded(res@.queue, res@.graph.dom(), n@);
        }
        let text = match files.get(&n) {
            None => {
                proof {
                    let i = choose|i: int| 0 <= i < res@.queue.len() && res@.queue[i] == n@;
                    assert(reachable(fm, root, n@));
                    assert(!resolution_ok(fm, root));
                }
                return Err(ResolveError::Io { name: n });
            },
            Some(t) => t,
        };
        let ghost pre = res@;
        let ghost measure_pre = fm.dom().difference(pre.graph.dom()).len();
        match res.supply(n, text.as_str()) {
            Err(e) => {
                proof {
                    let i = choose|i: int| 0 <= i < pre.queue.len() && pre.queue[i] == n@;
                    assert(reachable(fm, root, n@));
                    assert(!resolution_ok(fm, root));
                }
                return Err(e);
            },
            Ok(()) => {
                proof {
                    let pv = choose|pv: ProgramView|
                        parse_spec(text@) == Ok::<ProgramView, ParseError>(pv);
                    let i0 = choose|i: int| 0 <= i < pre.queue.len() && pre.queue[i] == n@;
                    assert(reachable(fm, root, n@));
                    lemma_popped_prefix(pre.queue, pre.graph.dom());
                    let pq = popped(pre.queue, pre.graph.dom());
                    // every new worklist entry is reachable
                    assert forall|i: int| 0 <= i < res@.queue.len() implies reachable(
                        fm,
                        root,
                        #[trigger] res@.queue[i],
                    ) by {
                        if i < pq.len() {
                            assert(res@.queue[i] == pre.queue[i]);
                        } else {
                            assert(res@.queue[i] == refs_of(pv)[i - pq.len()]);
                            assert(refs_of(pv).contains(res@.queue[i]));
                            assert(step_ref(fm, n@, res@.queue[i]));
                            lemma_reachable_step(fm, root, n@, res@.queue[i]);
                        }
                    }
                    // the reference closure still holds
                    assert forall|k: Seq<char>, b: Seq<char>|
                        res@.graph.dom().contains(k) && #[trigger] refs_of(
                            res@.graph[k],
                        ).contains(b) implies res@.graph.dom().contains(b) || res@.queue.contains(
                        b,
                    ) by {
                        if k == n@ {
                            let j = choose|j: int|
                                0 <= j < refs_of(pv).len() && refs_of(pv)[j] == b;
                            assert(res@.queue[pq.len() + j] == b);
                        } else {
                            assert(pre.graph.dom().contains(k));
                            assert(refs_of(pre.graph[k]).contains(b));
                            if pre.queue.contains(b) {
                                let i = choose|i: int|
                                    0 <= i < pre.queue.len() && pre.queue[i] == b;
                                lemma_popped_cover(pre.queue, pre.graph.dom(), n@, i);
                                if pq.contains(b) {
                                    let j = choose|j: int| 0 <= j < pq.len() && pq[j] == b;
                                    assert(res@.queue[j] == b);
                                }
                            }
                        }
                    }
                    // the root is still accounted for
                    if !res@.graph.dom().contains(root) {
                        assert(pre.queue.contains(root));
                        let i = choose|i: int| 0 <= i < pre.queue.len() && pre.queue[i] == root;
                        lemma_popped_cover(pre.queue, pre.graph.dom(), n@, i);
                        if pq.contains(root) {
                            let j = choose|j: int| 0 <= j < pq.len() && pq[j] == root;
                            assert(res@.queue[j] == root);
                        }
                    }
                    // one more store file is loaded: the measure shrinks
                    assert(fm.dom().difference(res@.graph.dom()) =~= fm.dom().difference(
                        pre.graph.dom(),
                    ).remove(n@));
                    assert(fm.dom().difference(pre.graph.dom()).contains(n@));
                    vstd::set::axiom_set_remove_len(fm.dom().difference(pre.graph.dom()), n@);
                }
            },
        }
    }
    // resolution is complete: everything reachable is loaded and parses
    proof {
        assert forall|i: int| 0 <= i < res@.queue.len() implies res@.graph.dom().contains(
            #[trigger] res@.queue[i],
        ) by {
            lemma_done_queue_loaded(res@.queue, res@.graph.dom(), i);
        }
        if res@.queue.contains(root) {
            let i = choose|i: int| 0 <= i < res@.queue.len() && res@.queue[i] == root;
        }
        assert(res@.graph.dom().contains(root));
        assert forall|k: Seq<char>, b: Seq<char>|
            res@.graph.dom().contains(k) && #[trigger] refs_of(res@.graph[k]).contains(b) implies
            res@.graph.dom().contains(b) by {
            if res@.queue.contains(b) {
                let i = choose|i: int| 0 <= i < res@.queue.len() && res@.queue[i] == b;
            }
        }
        assert forall|m: Seq<char>| reachable(fm, root, m) implies fm.dom().contains(m)
            && parse_spec(fm[m]) is Ok by {
            let path = choose|path: Seq<Seq<char>>|
                path.len() >= 1 && path.first() == root && path.last() == m && is_ref_path(
                    fm,
                    path,
                );
            lemma_path_loaded(fm, res@.graph, path);
        }
        assert(resolution_ok(fm, root));
    }
    let prog = match res.get_program(&name) {
        None => {
            proof {
                assert(false);
            }
            return Err(ResolveError::Io { name });
        },
        Some(p) => p,
    };
    let methods = copy_methods(&prog.methods);
    let p = Program { methods, extends: Vec::new(), uses: Vec::new() };
    proof {
        assert(methods_view(p.methods@) == prog@.methods);
    }
    Ok(p)
}

/// The store's view is finite (it is built from finitely many entries).
proof fn lemma_files_map_finite_pub(files: &FileSet)
    ensures
        files@.dom().finite(),
{
    lemma_files_map_finite(files.entries@);
}

} // verus!
