//! Import bookkeeping: which modules were compiled already, where modules
//! are searched for, and how a module's public functions reach the
//! importing program. Reading directories and files is left to the caller.
use vstd::prelude::*;
use crate::diag::CompileError;
use crate::emitter::func_block;
use crate::linker::{add_result, public_only, Linker, LinkerFunc, LinkerFuncV};
use crate::nodes::{Linkage, Node, Program, StmtV, NodeV};
use crate::text::{copy_string, push_str, same_text};

verus! {

broadcast use vstd::std_specs::vec::group_vec_axioms, vstd::seq::group_seq_axioms;

/// The modules imported so far, each with the code block it contributes, and
/// the library roots that import paths are resolved against.
#[derive(Debug)]
pub struct ImportHelper {
    imported: Vec<(String, String)>,
    lib_paths: Vec<String>,
}

/// Whether `path` is among the imported modules.
pub open spec fn is_imported_in(s: Seq<(Seq<char>, Seq<char>)>, path: Seq<char>) -> bool {
    exists|i: int| 0 <= i < s.len() && (#[trigger] s[i]).0 == path
}

/// Recording a module: a path seen before changes nothing.
pub open spec fn record(s: Seq<(Seq<char>, Seq<char>)>, path: Seq<char>, block: Seq<char>) -> Seq<(Seq<char>, Seq<char>)> {
    if is_imported_in(s, path) {
        s
    } else {
        s.push((path, block))
    }
}

/// The standard library root.
pub open spec fn std_root() -> Seq<char> {
    "/usr/lib/hexagn/hexagn-stdlib/"@
}

/// The library root in the working directory.
pub open spec fn local_root() -> Seq<char> {
    "./hexagn-stdlib/"@
}

impl ImportHelper {
    pub closed spec fn imported(&self) -> Seq<(Seq<char>, Seq<char>)> {
        self.imported@.map_values(|e: (String, String)| (e.0@, e.1@))
    }

    pub closed spec fn roots(&self) -> Seq<Seq<char>> {
        self.lib_paths@.map_values(|p: String| p@)
    }

    /// Nothing imported; the standard library root, then the one in the
    /// working directory.
    pub fn new() -> (r: ImportHelper)
        ensures
            r.imported() == Seq::<(Seq<char>, Seq<char>)>::empty(),
            r.roots() == seq![std_root(), local_root()],
    {
        let mut lib_paths: Vec<String> = Vec::new();
        lib_paths.push(String::from_str("/usr/lib/hexagn/hexagn-stdlib/"));
        lib_paths.push(String::from_str("./hexagn-stdlib/"));
        let r = ImportHelper { imported: Vec::new(), lib_paths };
        assert(r.imported() =~= Seq::<(Seq<char>, Seq<char>)>::empty());
        assert(r.roots() =~= seq![std_root(), local_root()]);
        r
    }

    /// Adds a library root, searched after the others.
    pub fn add_lib_path(&mut self, path: &str)
        ensures
            final(self).roots() == old(self).roots().push(path@),
            final(self).imported() == old(self).imported(),
    {
        self.lib_paths.push(String::from_str(path));
        assert(self.roots() =~= old(self).roots().push(path@));
        assert(self.imported() =~= old(self).imported());
    }

    /// Copies of the library roots, in search order.
    pub fn lib_paths(&self) -> (r: Vec<String>)
        ensures
            r@.map_values(|p: String| p@) == self.roots(),
    {
        let mut r: Vec<String> = Vec::new();
        let mut i: usize = 0;
        while i < self.lib_paths.len()
            invariant
                i <= self.lib_paths.len(),
                r.len() == i,
                forall|k: int| 0 <= k < i ==> (#[trigger] r@[k])@ == self.lib_paths@[k]@,
            decreases self.lib_paths.len() - i,
        {
            r.push(copy_string(&self.lib_paths[i]));
            i = i + 1;
        }
        assert(r@.map_values(|p: String| p@) =~= self.roots());
        r
    }

    /// Whether the module at `path` was imported already.
    pub fn is_imported(&self, path: &String) -> (r: bool)
        ensures
            r == is_imported_in(self.imported(), path@),
    {
        let mut i: usize = 0;
        while i < self.imported.len()
            invariant
                i <= self.imported.len(),
                forall|k: int| 0 <= k < i ==> (#[trigger] self.imported()[k]).0 != path@,
            decreases self.imported.len() - i,
        {
            if same_text(&self.imported[i].0, path) {
                assert(self.imported()[i as int].0 == path@);
                return true;
            }
            i = i + 1;
        }
        false
    }

    /// Records the module at `path` with its code block. A module recorded
    /// before is left as it is and `false` comes back.
    pub fn record_import(&mut self, path: String, block: String) -> (r: bool)
        ensures
            r == !is_imported_in(old(self).imported(), path@),
            final(self).imported() == record(old(self).imported(), path@, block@),
            final(self).roots() == old(self).roots(),
    {
        if self.is_imported(&path) {
            return false;
        }
        let ghost before = self.imported();
        self.imported.push((path, block));
        assert(self.imported() =~= before.push((path@, block@)));
        assert(self.roots() =~= old(self).roots());
        true
    }

    /// Sets the code block of the recorded module at `path`, once its
    /// compilation has finished.
    pub fn set_block(&mut self, path: &String, block: String)
        ensures
            final(self).roots() == old(self).roots(),
            final(self).imported().len() == old(self).imported().len(),
            forall|i: int|
                0 <= i < old(self).imported().len() ==> (#[trigger] final(self).imported()[i]) == (if old(
                    self,
                ).imported()[i].0 == path@ {
                    (path@, block@)
                } else {
                    old(self).imported()[i]
                }),
    {
        let mut i: usize = 0;
        while i < self.imported.len()
            invariant
                i <= self.imported.len(),
                self.imported().len() == old(self).imported().len(),
                self.roots() == old(self).roots(),
                forall|k: int|
                    0 <= k < self.imported().len() ==> (#[trigger] self.imported()[k]) == (if k < i
                        && old(self).imported()[k].0 == path@ {
                        (path@, block@)
                    } else {
                        old(self).imported()[k]
                    }),
            decreases self.imported.len() - i,
        {
            proof {
                assert(self.imported()[i as int] == old(self).imported()[i as int]);
                assert(self.imported()[i as int].0 == self.imported@[i as int].0@);
            }
            if same_text(&self.imported[i].0, path) {
                let ghost before = self.imported();
                self.imported.set(i, (copy_string(path), copy_string(&block)));
                assert(self.imported() =~= before.update(i as int, (path@, block@)));
            }
            i = i + 1;
        }
    }

    /// The code blocks of the imported modules, in import order.
    pub fn output(&self) -> (r: String)
        ensures
            r@ == blocks_of(self.imported()),
    {
        let mut r = String::new();
        let mut i: usize = 0;
        while i < self.imported.len()
            invariant
                i <= self.imported.len(),
                r@ == blocks_of(self.imported().subrange(0, i as int)),
            decreases self.imported.len() - i,
        {
            proof {
                assert(self.imported().subrange(0, i + 1).drop_last() =~= self.imported().subrange(0, i as int));
            }
            push_str(&mut r, self.imported[i].1.as_str());
            i = i + 1;
        }
        assert(self.imported().subrange(0, self.imported.len() as int) =~= self.imported());
        r
    }
}

/// The code blocks of recorded modules, concatenated in order.
pub open spec fn blocks_of(s: Seq<(Seq<char>, Seq<char>)>) -> Seq<char>
    decreases s.len(),
{
    if s.len() == 0 {
        Seq::empty()
    } else {
        blocks_of(s.drop_last()) + s.last().1
    }
}

/// Importing a module twice is the same as importing it once: the second
/// record is a no-op, so no symbol arrives twice.
pub proof fn law_import_idempotent(
    s: Seq<(Seq<char>, Seq<char>)>,
    path: Seq<char>,
    b1: Seq<char>,
    b2: Seq<char>,
)
    ensures
        record(record(s, path, b1), path, b2) == record(s, path, b1),
{
    let s1 = record(s, path, b1);
    if !is_imported_in(s, path) {
        assert(s1[s1.len() - 1].0 == path);
    }
}

/// The blocks of a module's own functions with private linkage, which stay
/// in the module's output; its public ones are emitted by the importer.
pub open spec fn private_blocks(fs: Seq<LinkerFuncV>) -> Seq<char>
    decreases fs.len(),
{
    if fs.len() == 0 {
        Seq::empty()
    } else if fs.last().linkage == Linkage::Private {
        private_blocks(fs.drop_last()) + func_block(fs.last())
    } else {
        private_blocks(fs.drop_last())
    }
}

/// The code block an imported module contributes (see [`private_blocks`]).
pub fn module_block(linker: &Linker) -> (r: String)
    ensures
        r@ == private_blocks(linker@),
{
    let funcs = linker.get_funcs();
    let ghost fv = linker@;
    let mut out = String::new();
    let mut i: usize = 0;
    while i < funcs.len()
        invariant
            i <= funcs.len(),
            funcs@.map_values(|f: LinkerFunc| f@) == fv,
            out@ == private_blocks(fv.subrange(0, i as int)),
        decreases funcs.len() - i,
    {
        let f = &funcs[i];
        proof {
            assert(fv.subrange(0, i + 1).drop_last() =~= fv.subrange(0, i as int));
            assert(fv[i as int] == f@);
        }
        if f.linkage() == Linkage::Private {
            let ghost o = out@;
            push_str(&mut out, ".");
            let sig = f.get_signature();
            push_str(&mut out, sig.as_str());
            push_str(&mut out, "\n");
            push_str(&mut out, "PSH R1\n");
            push_str(&mut out, "MOV R1 SP\n\n");
            push_str(&mut out, f.code().as_str());
            push_str(&mut out, "\n");
            push_str(&mut out, "MOV SP R1\n");
            push_str(&mut out, "POP R1\n\n");
            push_str(&mut out, "RET\n");
            assert(out@ =~= o + func_block(f@));
        }
        i = i + 1;
    }
    assert(fv.subrange(0, funcs.len() as int) =~= fv);
    out
}

/// Registering each function of `fs` in turn, stopping at the first refusal.
pub open spec fn add_all(outer: Seq<LinkerFuncV>, fs: Seq<LinkerFuncV>) -> Result<Seq<LinkerFuncV>, Seq<char>>
    decreases fs.len(),
{
    if fs.len() == 0 {
        Ok(outer)
    } else {
        match add_all(outer, fs.drop_last()) {
            Ok(o) => add_result(o, fs.last(), false),
            Err(m) => Err(m),
        }
    }
}

/// Registers the public functions of an imported module's registry in the
/// importer's, in order.
pub fn publish(inner: &Linker, outer: &mut Linker) -> (r: Result<(), CompileError>)
    requires
        old(outer).wf(),
    ensures
        final(outer).wf(),
        match add_all(old(outer)@, public_only(inner@)) {
            Ok(fs) => r is Ok && final(outer)@ == fs,
            Err(m) => r is Err && r->Err_0.message@ == m,
        },
{
    let pubs = inner.get_public_funcs();
    let ghost pv = public_only(inner@);
    let ghost o0 = outer@;
    let mut i: usize = 0;
    while i < pubs.len()
        invariant
            i <= pubs.len(),
            pubs@.map_values(|f: LinkerFunc| f@) == pv,
            outer.wf(),
            o0 == old(outer)@,
            pv == public_only(inner@),
            add_all(old(outer)@, pv.subrange(0, i as int)) == Ok::<Seq<LinkerFuncV>, Seq<char>>(outer@),
        decreases pubs.len() - i,
    {
        proof {
            assert(pv.subrange(0, i + 1).drop_last() =~= pv.subrange(0, i as int));
            assert(pv[i as int] == pubs@[i as int]@);
        }
        match outer.add_func(&pubs[i], false) {
            Ok(()) => {
                assert(pv.subrange(0, i + 1).last() == pv[i as int]);
            },
            Err(e) => {
                proof {
                    assert(pv.subrange(0, i + 1).last() == pv[i as int]);
                    assert(add_all(old(outer)@, pv.subrange(0, i + 1)) == add_result(
                        add_all(old(outer)@, pv.subrange(0, i as int))->Ok_0,
                        pv[i as int],
                        false,
                    ));
                    assert(add_all(old(outer)@, pv.subrange(0, i + 1)) is Err);
                    lemma_add_all_err(old(outer)@, pv, i as int + 1);
                    assert(e.message@ == add_all(old(outer)@, pv)->Err_0);
                }
                return Err(e);
            },
        }
        i = i + 1;
    }
    assert(pv.subrange(0, pubs.len() as int) =~= pv);
    Ok(())
}

proof fn lemma_add_all_err(outer: Seq<LinkerFuncV>, fs: Seq<LinkerFuncV>, i: int)
    requires
        0 <= i <= fs.len(),
        add_all(outer, fs.subrange(0, i)) is Err,
    ensures
        add_all(outer, fs) == add_all(outer, fs.subrange(0, i)),
    decreases fs.len() - i,
{
    if i < fs.len() {
        assert(fs.subrange(0, i + 1).drop_last() =~= fs.subrange(0, i));
        lemma_add_all_err(outer, fs, i + 1);
    } else {
        assert(fs.subrange(0, i) =~= fs);
    }
}

/// The import statements among a program's top-level statements.
pub open spec fn import_paths(ss: Seq<StmtV>) -> Seq<(Seq<Seq<char>>, nat)>
    decreases ss.len(),
{
    if ss.len() == 0 {
        Seq::empty()
    } else {
        match ss.last().node {
            NodeV::Import(p) => import_paths(ss.drop_last()).push((p, ss.last().line)),
            _ => import_paths(ss.drop_last()),
        }
    }
}

/// The path segments and source line of each top-level `import`, in order.
pub fn collect_imports(prog: &Program) -> (r: Vec<(Vec<String>, usize)>)
    ensures
        r@.map_values(|e: (Vec<String>, usize)| (e.0@.map_values(|x: String| x@), e.1 as nat)) == import_paths(prog@),
{
    let ghost sv = prog@;
    proof {
        crate::nodes::lemma_stmts_view_len(prog.statements@);
    }
    let mut r: Vec<(Vec<String>, usize)> = Vec::new();
    let mut i: usize = 0;
    while i < prog.statements.len()
        invariant
            i <= prog.statements.len(),
            sv == prog@,
            sv.len() == prog.statements.len(),
            r@.map_values(|e: (Vec<String>, usize)| (e.0@.map_values(|x: String| x@), e.1 as nat)) == import_paths(
                sv.subrange(0, i as int),
            ),
        decreases prog.statements.len() - i,
    {
        proof {
            crate::nodes::lemma_stmts_view_index(prog.statements@, i as int);
            assert(sv.subrange(0, i + 1).drop_last() =~= sv.subrange(0, i as int));
        }
        if let Node::Import(p) = &prog.statements[i].1 {
            let ghost before = r@;
            let segs = crate::nodes::copy_strings(p);
            r.push((segs, prog.statements[i].0.lineno));
            assert(r@.map_values(|e: (Vec<String>, usize)| (e.0@.map_values(|x: String| x@), e.1 as nat)) =~= before.map_values(
                |e: (Vec<String>, usize)| (e.0@.map_values(|x: String| x@), e.1 as nat),
            ).push((p@.map_values(|x: String| x@), prog.statements[i as int].0.lineno as nat)));
        }
        i = i + 1;
    }
    assert(sv.subrange(0, prog.statements.len() as int) =~= sv);
    r
}

} // verus!
