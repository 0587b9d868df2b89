//! The function registry: signatures, overload lookup by type family, and
//! name mangling.
use vstd::prelude::*;
use crate::diag::{CompileError, ErrorKind};
use crate::nodes::{copy_types, families, same_families, same_types, types_view, Linkage, Type, TypeV};
use crate::text::{copy_string, dec_nat, digit_char, is_digit, push_char, push_nat, push_str, same_text, str_is};

verus! {

broadcast use vstd::std_specs::vec::group_vec_axioms, vstd::seq::group_seq_axioms;

/// The short code of a primitive type name, if it is one.
pub open spec fn short_code(n: Seq<char>) -> Option<Seq<char>> {
    if n == "void"@ {
        Some(seq!['v'])
    } else if n == "int8"@ {
        Some(seq!['i', '8'])
    } else if n == "int16"@ {
        Some(seq!['i', '1', '6'])
    } else if n == "int32"@ {
        Some(seq!['i', '3', '2'])
    } else if n == "int64"@ {
        Some(seq!['i', '6', '4'])
    } else if n == "uint8"@ {
        Some(seq!['u', '8'])
    } else if n == "uint16"@ {
        Some(seq!['u', '1', '6'])
    } else if n == "uint32"@ {
        Some(seq!['u', '3', '2'])
    } else if n == "uint64"@ {
        Some(seq!['u', '6', '4'])
    } else if n == "float32"@ {
        Some(seq!['f', '3', '2'])
    } else if n == "float64"@ {
        Some(seq!['f', '6', '4'])
    } else if n == "string"@ {
        Some(seq!['s'])
    } else if n == "char"@ {
        Some(seq!['c'])
    } else {
        None
    }
}

/// Whether `n` is spelled like one of the short codes.
pub open spec fn is_code(n: Seq<char>) -> bool {
    n == seq!['v'] || n == seq!['i', '8'] || n == seq!['i', '1', '6'] || n == seq!['i', '3', '2']
        || n == seq!['i', '6', '4'] || n == seq!['u', '8'] || n == seq!['u', '1', '6']
        || n == seq!['u', '3', '2'] || n == seq!['u', '6', '4'] || n == seq!['f', '3', '2']
        || n == seq!['f', '6', '4'] || n == seq!['s'] || n == seq!['c']
}

/// The mangled form of one type: `_<len><code>` for a primitive, `_<len><name>`
/// for any other name, and a one-letter tag before the inner type for a
/// pointer (`P`), an array (`A`) or a const (`K`).
pub open spec fn encode_type(t: TypeV) -> Seq<char>
    decreases t,
{
    match t {
        TypeV::Named(n) => match short_code(n) {
            Some(c) => seq!['_'] + dec_nat(c.len()) + c,
            None => seq!['_'] + dec_nat(n.len()) + n,
        },
        TypeV::Ptr(i) => seq!['P'] + encode_type(*i),
        TypeV::Arr(i) => seq!['A'] + encode_type(*i),
        TypeV::Const(i) => seq!['K'] + encode_type(*i),
    }
}

/// The mangled forms of a list of types, in order.
pub open spec fn encode_types(ts: Seq<TypeV>) -> Seq<char>
    decreases ts.len(),
{
    if ts.len() == 0 {
        Seq::empty()
    } else {
        encode_types(ts.drop_last()) + encode_type(ts.last())
    }
}

/// `int8 main()`: the program entry point, which keeps its plain name.
pub open spec fn is_entry(name: Seq<char>, ret: TypeV, args: Seq<TypeV>) -> bool {
    name == "main"@ && ret == TypeV::Named("int8"@) && args.len() == 0
}

/// The mangled signature `_Hx<len(name)><name><ret><args…>`, or `main` for
/// the entry point.
pub open spec fn signature(name: Seq<char>, ret: TypeV, args: Seq<TypeV>) -> Seq<char> {
    if is_entry(name, ret, args) {
        "main"@
    } else {
        seq!['_', 'H', 'x'] + dec_nat(name.len()) + name + encode_type(ret) + encode_types(args)
    }
}

/// The view of a [`LinkerFunc`].
pub struct LinkerFuncV {
    pub ret: TypeV,
    pub name: Seq<char>,
    pub args: Seq<TypeV>,
    pub linkage: Linkage,
    pub code: Seq<char>,
}

/// The mangled signature of a registered function.
pub open spec fn sig_of(f: LinkerFuncV) -> Seq<char> {
    signature(f.name, f.ret, f.args)
}

/// A compiled function: its signature and the code of its body.
#[derive(Debug)]
pub struct LinkerFunc {
    ret_type: Type,
    name: String,
    arg_types: Vec<Type>,
    linkage: Linkage,
    pub code: String,
}

impl View for LinkerFunc {
    type V = LinkerFuncV;

    closed spec fn view(&self) -> LinkerFuncV {
        LinkerFuncV {
            ret: self.ret_type@,
            name: self.name@,
            args: types_view(self.arg_types@),
            linkage: self.linkage,
            code: self.code@,
        }
    }
}

/// The short code of a primitive type name.
fn short_code_of(n: &str) -> (r: Option<&'static str>)
    ensures
        match r {
            Some(c) => short_code(n@) == Some(c@),
            None => short_code(n@) is None,
        },
{
    proof {
        reveal_strlit("v");
        reveal_strlit("i8");
        reveal_strlit("i16");
        reveal_strlit("i32");
        reveal_strlit("i64");
        reveal_strlit("u8");
        reveal_strlit("u16");
        reveal_strlit("u32");
        reveal_strlit("u64");
        reveal_strlit("f32");
        reveal_strlit("f64");
        reveal_strlit("s");
        reveal_strlit("c");
    }
    if str_is(n, "void") {
        Some("v")
    } else if str_is(n, "int8") {
        Some("i8")
    } else if str_is(n, "int16") {
        Some("i16")
    } else if str_is(n, "int32") {
        Some("i32")
    } else if str_is(n, "int64") {
        Some("i64")
    } else if str_is(n, "uint8") {
        Some("u8")
    } else if str_is(n, "uint16") {
        Some("u16")
    } else if str_is(n, "uint32") {
        Some("u32")
    } else if str_is(n, "uint64") {
        Some("u64")
    } else if str_is(n, "float32") {
        Some("f32")
    } else if str_is(n, "float64") {
        Some("f64")
    } else if str_is(n, "string") {
        Some("s")
    } else if str_is(n, "char") {
        Some("c")
    } else {
        None
    }
}

/// Appends the mangled form of a type (see [`encode_type`]).
pub fn push_encoded_type(out: &mut String, t: &Type)
    ensures
        final(out)@ == old(out)@ + encode_type(t@),
    decreases t,
{
    match t {
        Type::Named(n) => {
            push_char(out, '_');
            match short_code_of(n.as_str()) {
                Some(c) => {
                    push_nat(out, c.unicode_len() as u128);
                    push_str(out, c);
                },
                None => {
                    push_nat(out, n.as_str().unicode_len() as u128);
                    push_str(out, n.as_str());
                },
            }
        },
        Type::Ptr(i) => {
            push_char(out, 'P');
            push_encoded_type(out, &**i);
        },
        Type::Arr(i) => {
            push_char(out, 'A');
            push_encoded_type(out, &**i);
        },
        Type::Const(i) => {
            push_char(out, 'K');
            push_encoded_type(out, &**i);
        },
    }
    assert(final(out)@ =~= old(out)@ + encode_type(t@));
}

/// The mangled signature of a function (see [`signature`]).
pub fn mangle(name: &String, ret: &Type, args: &Vec<Type>) -> (r: String)
    ensures
        r@ == signature(name@, ret@, types_view(args@)),
{
    let entry = str_is(name.as_str(), "main") && args.len() == 0 && match ret {
        Type::Named(n) => str_is(n.as_str(), "int8"),
        _ => false,
    };
    if entry {
        return String::from_str("main");
    }
    let mut s = String::new();
    push_char(&mut s, '_');
    push_char(&mut s, 'H');
    push_char(&mut s, 'x');
    push_nat(&mut s, name.as_str().unicode_len() as u128);
    push_str(&mut s, name.as_str());
    push_encoded_type(&mut s, ret);
    let ghost head = s@;
    let mut i: usize = 0;
    while i < args.len()
        invariant
            i <= args.len(),
            s@ == head + encode_types(types_view(args@.subrange(0, i as int))),
        decreases args.len() - i,
    {
        push_encoded_type(&mut s, &args[i]);
        proof {
            let tv = types_view(args@.subrange(0, i + 1));
            assert(tv.drop_last() =~= types_view(args@.subrange(0, i as int)));
        }
        i = i + 1;
    }
    assert(args@.subrange(0, args.len() as int) =~= args@);
    assert(s@ =~= signature(name@, ret@, types_view(args@)));
    s
}

impl LinkerFunc {
    pub fn new(ret_type: &Type, name: &str, arg_types: &Vec<Type>, linkage: Linkage, code: &str) -> (r: LinkerFunc)
        ensures
            r@ == (LinkerFuncV {
                ret: ret_type@,
                name: name@,
                args: types_view(arg_types@),
                linkage,
                code: code@,
            }),
    {
        LinkerFunc {
            ret_type: ret_type.copy(),
            name: String::from_str(name),
            arg_types: copy_types(arg_types),
            linkage,
            code: String::from_str(code),
        }
    }

    /// A copy with the same view.
    pub fn copy(&self) -> (r: LinkerFunc)
        ensures
            r@ == self@,
    {
        LinkerFunc {
            ret_type: self.ret_type.copy(),
            name: copy_string(&self.name),
            arg_types: copy_types(&self.arg_types),
            linkage: self.linkage,
            code: copy_string(&self.code),
        }
    }

    pub fn ret_type(&self) -> (r: &Type)
        ensures
            r@ == self@.ret,
    {
        &self.ret_type
    }

    pub fn name(&self) -> (r: &String)
        ensures
            r@ == self@.name,
    {
        &self.name
    }

    pub fn arg_types(&self) -> (r: &Vec<Type>)
        ensures
            types_view(r@) == self@.args,
    {
        &self.arg_types
    }

    pub fn code(&self) -> (r: &String)
        ensures
            r@ == self@.code,
    {
        &self.code
    }

    pub fn linkage(&self) -> (r: Linkage)
        ensures
            r == self@.linkage,
    {
        self.linkage
    }

    /// The mangled label of this function.
    pub fn get_signature(&self) -> (r: String)
        ensures
            r@ == sig_of(self@),
    {
        mangle(&self.name, &self.ret_type, &self.arg_types)
    }
}

/// Whether `f` answers a call to `name` with arguments of types `args`:
/// same name, and the same families element-wise.
pub open spec fn call_matches(f: LinkerFuncV, name: Seq<char>, args: Seq<TypeV>) -> bool {
    f.name == name && families(f.args) == families(args)
}

/// The index of the first registered function that answers the call.
pub open spec fn lookup(fs: Seq<LinkerFuncV>, name: Seq<char>, args: Seq<TypeV>) -> Option<int>
    decreases fs.len(),
{
    if fs.len() == 0 {
        None
    } else {
        match lookup(fs.drop_last(), name, args) {
            Some(i) => Some(i),
            None => if call_matches(fs.last(), name, args) {
                Some(fs.len() - 1)
            } else {
                None
            },
        }
    }
}

/// Whether two registered functions differ only in their return types.
pub open spec fn return_overload(a: LinkerFuncV, b: LinkerFuncV) -> bool {
    a.name == b.name && a.args == b.args && a.ret != b.ret
}

/// Whether two registered functions answer the same calls: same name and the
/// same parameter families element-wise.
pub open spec fn same_key(a: LinkerFuncV, b: LinkerFuncV) -> bool {
    a.name == b.name && families(a.args) == families(b.args)
}

/// The registry's invariant: no two entries share a signature, and no two
/// share a name and parameter families.
#[verifier::opaque]
pub open spec fn registry_wf(fs: Seq<LinkerFuncV>) -> bool {
    forall|i: int, j: int|
        0 <= i < fs.len() && 0 <= j < fs.len() && i != j ==> sig_of(#[trigger] fs[i]) != sig_of(#[trigger] fs[j])
            && !same_key(fs[i], fs[j])
}

/// The public entries, in order.
pub open spec fn public_only(fs: Seq<LinkerFuncV>) -> Seq<LinkerFuncV>
    decreases fs.len(),
{
    if fs.len() == 0 {
        Seq::empty()
    } else if fs.last().linkage == Linkage::Public {
        public_only(fs.drop_last()).push(fs.last())
    } else {
        public_only(fs.drop_last())
    }
}

/// The message for a return-type-only overload of `name`.
pub open spec fn overload_message(name: Seq<char>) -> Seq<char> {
    "Cannot overload function "@ + name + " based on return types"@
}

/// The message for a second function with the same signature.
pub open spec fn duplicate_message(name: Seq<char>) -> Seq<char> {
    "Duplicate function "@ + name
}

/// The message for a second function that answers the same calls.
pub open spec fn clash_message(name: Seq<char>) -> Seq<char> {
    "Conflicting overload of function "@ + name
}

/// What registering `f` does to the entries `fs`: the new entries, or the
/// refusal message. An entry with the same signature is refused first
/// (unless it may be replaced); then one that differs only in its return
/// type; then one with the same name and parameter families. Otherwise the
/// entry with the same signature is replaced, or `f` is appended.
#[verifier::opaque]
pub open spec fn add_result(fs: Seq<LinkerFuncV>, f: LinkerFuncV, allow_replace: bool) -> Result<
    Seq<LinkerFuncV>,
    Seq<char>,
> {
    let dup = exists|j: int| 0 <= j < fs.len() && sig_of(#[trigger] fs[j]) == sig_of(f);
    if dup && !allow_replace {
        Err(duplicate_message(f.name))
    } else if exists|j: int|
        0 <= j < fs.len() && sig_of(#[trigger] fs[j]) != sig_of(f) && return_overload(f, fs[j]) {
        Err(overload_message(f.name))
    } else if exists|j: int| 0 <= j < fs.len() && sig_of(#[trigger] fs[j]) != sig_of(f) && same_key(f, fs[j]) {
        Err(clash_message(f.name))
    } else if dup {
        Ok(fs.update(choose|j: int| 0 <= j < fs.len() && sig_of(#[trigger] fs[j]) == sig_of(f), f))
    } else {
        Ok(fs.push(f))
    }
}

/// The registry of compiled functions, in registration order.
#[derive(Debug)]
pub struct Linker {
    funcs: Vec<LinkerFunc>,
}

impl View for Linker {
    type V = Seq<LinkerFuncV>;

    closed spec fn view(&self) -> Seq<LinkerFuncV> {
        self.funcs@.map_values(|f: LinkerFunc| f@)
    }
}

impl Linker {
    pub open spec fn wf(&self) -> bool {
        registry_wf(self@)
    }

    pub fn new() -> (r: Linker)
        ensures
            r@ == Seq::<LinkerFuncV>::empty(),
            r.wf(),
    {
        let r = Linker { funcs: Vec::new() };
        assert(r@ =~= Seq::<LinkerFuncV>::empty());
        proof {
            reveal(registry_wf);
        }
        r
    }

    /// Registers `function` (see [`add_result`]).
    pub fn add_func(&mut self, function: &LinkerFunc, allow_replace: bool) -> (res: Result<(), CompileError>)
        requires
            old(self).wf(),
        ensures
            final(self).wf(),
            match add_result(old(self)@, function@, allow_replace) {
                Ok(fs) => res is Ok && final(self)@ == fs,
                Err(m) => res is Err && res->Err_0.kind == ErrorKind::Overload && res->Err_0.message@ == m
                    && final(self)@ == old(self)@,
            },
    {
        proof {
            reveal(registry_wf);
            reveal(add_result);
        }
        let fsig = function.get_signature();
        let n = self.funcs.len();
        let mut i: usize = 0;
        let mut dup: Option<usize> = None;
        let mut ro = false;
        let mut clash = false;
        while i < n
            invariant
                n == self.funcs.len(),
                i <= n,
                self@ == old(self)@,
                self.wf(),
                fsig@ == sig_of(function@),
                match dup {
                    Some(d) => d < i && sig_of(self@[d as int]) == sig_of(function@),
                    None => forall|j: int| 0 <= j < i ==> sig_of(#[trigger] self@[j]) != sig_of(function@),
                },
                ro == exists|j: int|
                    0 <= j < i && sig_of(#[trigger] self@[j]) != sig_of(function@) && return_overload(function@, self@[j]),
                clash == exists|j: int|
                    0 <= j < i && sig_of(#[trigger] self@[j]) != sig_of(function@) && same_key(function@, self@[j]),
            decreases n - i,
        {
            let f = &self.funcs[i];
            if same_text(&f.get_signature(), &fsig) {
                if dup.is_none() {
                    dup = Some(i);
                }
                assert(forall|j: int|
                    0 <= j < i + 1 && sig_of(#[trigger] self@[j]) != sig_of(function@) && return_overload(function@, self@[j])
                        ==> j < i);
                assert(forall|j: int|
                    0 <= j < i + 1 && sig_of(#[trigger] self@[j]) != sig_of(function@) && same_key(function@, self@[j])
                        ==> j < i);
            } else {
                let same_name = same_text(&f.name, &function.name);
                if same_name && same_types(&f.arg_types, &function.arg_types) && !f.ret_type.same(&function.ret_type) {
                    assert(return_overload(function@, self@[i as int]));
                    ro = true;
                }
                if same_name && same_families(&f.arg_types, &function.arg_types) {
                    assert(same_key(function@, self@[i as int]));
                    clash = true;
                }
            }
            i = i + 1;
        }
        if dup.is_some() && !allow_replace {
            let mut msg = String::from_str("Duplicate function ");
            push_str(&mut msg, function.name.as_str());
            return Err(CompileError::new(ErrorKind::Overload, msg, 0, 0, 0));
        }
        if ro {
            let mut msg = String::from_str("Cannot overload function ");
            push_str(&mut msg, function.name.as_str());
            push_str(&mut msg, " based on return types");
            return Err(CompileError::new(ErrorKind::Overload, msg, 0, 0, 0));
        }
        if clash {
            let mut msg = String::from_str("Conflicting overload of function ");
            push_str(&mut msg, function.name.as_str());
            return Err(CompileError::new(ErrorKind::Overload, msg, 0, 0, 0));
        }
        match dup {
            Some(d) => {
                let ghost before = self@;
                proof {
                    let j = choose|j: int| 0 <= j < before.len() && sig_of(#[trigger] before[j]) == sig_of(function@);
                    assert(j == d);
                }
                self.funcs.set(d, function.copy());
                assert(self@ =~= before.update(d as int, function@));
                Ok(())
            },
            None => {
                let ghost before = self@;
                self.funcs.push(function.copy());
                assert(self@ =~= before.push(function@));
                Ok(())
            },
        }
    }

    /// The first registered function whose name is `name` and whose parameter
    /// types have the families of `arg_types`.
    pub fn get_func(&self, name: &String, arg_types: &Vec<Type>) -> (r: Option<LinkerFunc>)
        ensures
            match lookup(self@, name@, types_view(arg_types@)) {
                Some(i) => r is Some && r->Some_0@ == self@[i],
                None => r is None,
            },
    {
        let mut i: usize = 0;
        while i < self.funcs.len()
            invariant
                i <= self.funcs.len(),
                lookup(self@.subrange(0, i as int), name@, types_view(arg_types@)) is None,
            decreases self.funcs.len() - i,
        {
            let f = &self.funcs[i];
            proof {
                assert(self@.subrange(0, i + 1).drop_last() =~= self@.subrange(0, i as int));
            }
            if same_text(&f.name, name) && same_families(&f.arg_types, arg_types) {
                proof {
                    lemma_lookup_extend(self@, i as int + 1, name@, types_view(arg_types@));
                }
                return Some(f.copy());
            }
            i = i + 1;
        }
        assert(self@.subrange(0, self.funcs.len() as int) =~= self@);
        None
    }

    /// Every registered function, in registration order.
    pub fn get_funcs(&self) -> (r: &Vec<LinkerFunc>)
        ensures
            r@.map_values(|f: LinkerFunc| f@) == self@,
    {
        &self.funcs
    }

    /// Copies of the public functions, in registration order.
    pub fn get_public_funcs(&self) -> (r: Vec<LinkerFunc>)
        ensures
            r@.map_values(|f: LinkerFunc| f@) == public_only(self@),
    {
        let mut out: Vec<LinkerFunc> = Vec::new();
        let mut i: usize = 0;
        while i < self.funcs.len()
            invariant
                i <= self.funcs.len(),
                out@.map_values(|f: LinkerFunc| f@) == public_only(self@.subrange(0, i as int)),
            decreases self.funcs.len() - i,
        {
            proof {
                assert(self@.subrange(0, i + 1).drop_last() =~= self@.subrange(0, i as int));
            }
            if self.funcs[i].linkage == Linkage::Public {
                let ghost before = out@;
                out.push(self.funcs[i].copy());
                assert(out@.map_values(|f: LinkerFunc| f@) =~= before.map_values(|f: LinkerFunc| f@).push(
                    self@[i as int],
                ));
            }
            i = i + 1;
        }
        assert(self@.subrange(0, self.funcs.len() as int) =~= self@);
        out
    }
}

/// A prefix with a match keeps its answer in every longer prefix.
proof fn lemma_lookup_extend(fs: Seq<LinkerFuncV>, k: int, name: Seq<char>, args: Seq<TypeV>)
    requires
        0 <= k <= fs.len(),
        lookup(fs.subrange(0, k), name, args) is Some,
    ensures
        lookup(fs, name, args) == lookup(fs.subrange(0, k), name, args),
    decreases fs.len() - k,
{
    if k < fs.len() {
        assert(fs.subrange(0, k + 1).drop_last() =~= fs.subrange(0, k));
        lemma_lookup_extend(fs, k + 1, name, args);
    } else {
        assert(fs.subrange(0, k) =~= fs);
    }
}


/// Lookup is decided by registration order: the answer is the first entry
/// that matches the call, and there is none only when no entry matches.
pub proof fn law_lookup_first_match(fs: Seq<LinkerFuncV>, name: Seq<char>, args: Seq<TypeV>)
    ensures
        match lookup(fs, name, args) {
            Some(i) => 0 <= i < fs.len() && call_matches(fs[i], name, args) && forall|j: int|
                0 <= j < i ==> !call_matches(#[trigger] fs[j], name, args),
            None => forall|j: int| 0 <= j < fs.len() ==> !call_matches(#[trigger] fs[j], name, args),
        },
    decreases fs.len(),
{
    if fs.len() > 0 {
        let p = fs.drop_last();
        law_lookup_first_match(p, name, args);
        assert forall|j: int| 0 <= j < fs.len() - 1 implies fs[j] == #[trigger] p[j] by {}
        assert(fs.last() == fs[fs.len() - 1]);
        match lookup(p, name, args) {
            Some(i) => {
                assert forall|j: int| 0 <= j < i implies !call_matches(#[trigger] fs[j], name, args) by {
                    assert(fs[j] == p[j]);
                }
            },
            None => {
                assert forall|j: int| 0 <= j < fs.len() - 1 implies !call_matches(#[trigger] fs[j], name, args) by {
                    assert(fs[j] == p[j]);
                }
            },
        }
    }
}

/// Registering another function never changes a lookup that already succeeds.
pub proof fn law_lookup_stable(fs: Seq<LinkerFuncV>, f: LinkerFuncV, name: Seq<char>, args: Seq<TypeV>)
    requires
        lookup(fs, name, args) is Some,
    ensures
        lookup(fs.push(f), name, args) == lookup(fs, name, args),
{
    assert(fs.push(f).drop_last() =~= fs);
}

/// `int8 main()` keeps the plain name `main`; every other signature named
/// `main` is mangled.
pub proof fn law_entry_point_name(ret: TypeV, args: Seq<TypeV>)
    ensures
        signature("main"@, ret, args) == "main"@ <==> (ret == TypeV::Named("int8"@) && args.len() == 0),
        !(ret == TypeV::Named("int8"@) && args.len() == 0) ==> signature("main"@, ret, args).subrange(0, 3)
            == seq!['_', 'H', 'x'],
{
    reveal_strlit("main");
    let s = signature("main"@, ret, args);
    if !(ret == TypeV::Named("int8"@) && args.len() == 0) {
        assert(s[0] == '_');
        assert(s.subrange(0, 3) =~= seq!['_', 'H', 'x']);
    }
}

/// Empty, or starting with something other than a decimal digit.
pub open spec fn clean(x: Seq<char>) -> bool {
    x.len() == 0 || !is_digit(x[0])
}

/// A function or type name that a length prefix can stand before.
pub open spec fn name_ok(n: Seq<char>) -> bool {
    clean(n)
}

/// A type whose names are primitives, or other names that neither start with
/// a digit nor are spelled like a short code.
pub open spec fn type_ok(t: TypeV) -> bool
    decreases t,
{
    match t {
        TypeV::Named(n) => short_code(n) is Some || (name_ok(n) && !is_code(n)),
        TypeV::Ptr(i) => type_ok(*i),
        TypeV::Arr(i) => type_ok(*i),
        TypeV::Const(i) => type_ok(*i),
    }
}

proof fn lemma_dec_digits(n: nat)
    ensures
        dec_nat(n).len() >= 1,
        forall|i: int| 0 <= i < dec_nat(n).len() ==> is_digit(#[trigger] dec_nat(n)[i]),
    decreases n,
{
    if n >= 10 {
        lemma_dec_digits(n / 10);
    }
}

proof fn lemma_digit_injective(x: nat, y: nat)
    requires
        x < 10,
        y < 10,
        digit_char(x) == digit_char(y),
    ensures
        x == y,
{
}

proof fn lemma_dec_injective(a: nat, b: nat)
    requires
        dec_nat(a) == dec_nat(b),
    ensures
        a == b,
    decreases a,
{
    if a < 10 && b < 10 {
        assert(dec_nat(a)[0] == digit_char(a));
        assert(dec_nat(b)[0] == digit_char(b));
        lemma_digit_injective(a, b);
    } else if a < 10 {
        lemma_dec_digits(b / 10);
        assert(dec_nat(b).len() == dec_nat(b / 10).len() + 1);
        assert(dec_nat(a).len() == 1);
    } else if b < 10 {
        lemma_dec_digits(a / 10);
        assert(dec_nat(a).len() == dec_nat(a / 10).len() + 1);
        assert(dec_nat(b).len() == 1);
    } else {
        let da = dec_nat(a);
        let db = dec_nat(b);
        assert(da.drop_last() =~= dec_nat(a / 10));
        assert(db.drop_last() =~= dec_nat(b / 10));
        assert(da.last() == db.last());
        assert(da.last() == digit_char(a % 10));
        assert(db.last() == digit_char(b % 10));
        lemma_digit_injective(a % 10, b % 10);
        lemma_dec_injective(a / 10, b / 10);
        assert(a == 10 * (a / 10) + a % 10);
        assert(b == 10 * (b / 10) + b % 10);
    }
}

proof fn lemma_dec_prefix(a: nat, b: nat, x: Seq<char>, y: Seq<char>)
    requires
        dec_nat(a) + x == dec_nat(b) + y,
        clean(x),
        clean(y),
    ensures
        a == b,
        x == y,
{
    lemma_dec_digits(a);
    lemma_dec_digits(b);
    let da = dec_nat(a);
    let db = dec_nat(b);
    let la = da.len() as int;
    let lb = db.len() as int;
    if la < lb {
        if x.len() == 0 {
            assert((da + x).len() < (db + y).len());
        } else {
            assert((da + x)[la] == x[0]);
            assert((db + y)[la] == db[la]);
        }
    } else if lb < la {
        if y.len() == 0 {
            assert((da + x).len() > (db + y).len());
        } else {
            assert((db + y)[lb] == y[0]);
            assert((da + x)[lb] == da[lb]);
        }
    } else {
        assert(da =~= (da + x).subrange(0, la));
        assert(db =~= (db + y).subrange(0, lb));
        assert(x =~= (da + x).subrange(la, (da + x).len() as int));
        assert(y =~= (db + y).subrange(lb, (db + y).len() as int));
        lemma_dec_injective(a, b);
    }
}

proof fn lemma_encode_first(t: TypeV)
    ensures
        encode_type(t).len() > 0,
        !is_digit(encode_type(t)[0]),
{
}

proof fn lemma_code_clean(n: Seq<char>)
    requires
        short_code(n) is Some,
    ensures
        short_code(n)->Some_0.len() > 0,
        clean(short_code(n)->Some_0),
{
}

proof fn lemma_short_code_injective(n1: Seq<char>, n2: Seq<char>)
    requires
        short_code(n1) is Some,
        short_code(n1) == short_code(n2),
    ensures
        n1 == n2,
{
    let c = short_code(n1)->Some_0;
    assert(c.len() >= 1);
    if c.len() == 1 {
        assert(c[0] == 'v' || c[0] == 's' || c[0] == 'c');
    } else if c.len() == 2 {
        assert(c[0] == 'i' || c[0] == 'u');
    } else {
        assert(c[0] == 'i' || c[0] == 'u' || c[0] == 'f');
    }
}

#[verifier::rlimit(30)]
proof fn lemma_encode_named_prefix(n1: Seq<char>, n2: Seq<char>, r1: Seq<char>, r2: Seq<char>)
    requires
        type_ok(TypeV::Named(n1)),
        type_ok(TypeV::Named(n2)),
        encode_type(TypeV::Named(n1)) + r1 == encode_type(TypeV::Named(n2)) + r2,
        clean(r1),
        clean(r2),
    ensures
        n1 == n2,
        r1 == r2,
{
    let e1 = encode_type(TypeV::Named(n1));
    let e2 = encode_type(TypeV::Named(n2));
    let c1 = match short_code(n1) {
        Some(c) => c,
        None => n1,
    };
    let c2 = match short_code(n2) {
        Some(c) => c,
        None => n2,
    };
    if short_code(n1) is Some {
        lemma_code_clean(n1);
    }
    if short_code(n2) is Some {
        lemma_code_clean(n2);
    }
    let d1 = dec_nat(c1.len());
    let d2 = dec_nat(c2.len());
    assert(e1 + r1 =~= seq!['_'] + (d1 + (c1 + r1)));
    assert(e2 + r2 =~= seq!['_'] + (d2 + (c2 + r2)));
    assert((seq!['_'] + (d1 + (c1 + r1))).drop_first() =~= d1 + (c1 + r1));
    assert((seq!['_'] + (d2 + (c2 + r2))).drop_first() =~= d2 + (c2 + r2));
    assert(clean(c1 + r1)) by {
        if c1.len() > 0 {
            assert((c1 + r1)[0] == c1[0]);
        } else {
            assert(c1 + r1 =~= r1);
        }
    }
    assert(clean(c2 + r2)) by {
        if c2.len() > 0 {
            assert((c2 + r2)[0] == c2[0]);
        } else {
            assert(c2 + r2 =~= r2);
        }
    }
    lemma_dec_prefix(c1.len(), c2.len(), c1 + r1, c2 + r2);
    assert(c1 =~= (c1 + r1).subrange(0, c1.len() as int));
    assert(c2 =~= (c2 + r2).subrange(0, c2.len() as int));
    assert(r1 =~= (c1 + r1).subrange(c1.len() as int, (c1 + r1).len() as int));
    assert(r2 =~= (c2 + r2).subrange(c2.len() as int, (c2 + r2).len() as int));

    assert(c1 == c2);
    if short_code(n1) is Some && short_code(n2) is Some {
        lemma_short_code_injective(n1, n2);
    }
}

proof fn lemma_encode_prefix(t1: TypeV, t2: TypeV, r1: Seq<char>, r2: Seq<char>)
    requires
        type_ok(t1),
        type_ok(t2),
        encode_type(t1) + r1 == encode_type(t2) + r2,
        clean(r1),
        clean(r2),
    ensures
        t1 == t2,
        r1 == r2,
    decreases t1,
{
    let e1 = encode_type(t1);
    let e2 = encode_type(t2);
    assert((e1 + r1)[0] == e1[0]);
    assert((e2 + r2)[0] == e2[0]);
    match (t1, t2) {
        (TypeV::Named(n1), TypeV::Named(n2)) => {
            lemma_encode_named_prefix(n1, n2, r1, r2);
        },
        (TypeV::Ptr(i1), TypeV::Ptr(i2)) => {
            assert((e1 + r1).drop_first() =~= encode_type(*i1) + r1);
            assert((e2 + r2).drop_first() =~= encode_type(*i2) + r2);
            lemma_encode_prefix(*i1, *i2, r1, r2);
        },
        (TypeV::Arr(i1), TypeV::Arr(i2)) => {
            assert((e1 + r1).drop_first() =~= encode_type(*i1) + r1);
            assert((e2 + r2).drop_first() =~= encode_type(*i2) + r2);
            lemma_encode_prefix(*i1, *i2, r1, r2);
        },
        (TypeV::Const(i1), TypeV::Const(i2)) => {
            assert((e1 + r1).drop_first() =~= encode_type(*i1) + r1);
            assert((e2 + r2).drop_first() =~= encode_type(*i2) + r2);
            lemma_encode_prefix(*i1, *i2, r1, r2);
        },
        _ => {},
    }
}

proof fn lemma_encode_types_front(ts: Seq<TypeV>)
    requires
        ts.len() > 0,
    ensures
        encode_types(ts) == encode_type(ts[0]) + encode_types(ts.drop_first()),
    decreases ts.len(),
{
    if ts.len() == 1 {
        assert(ts.drop_last().len() == 0);
        assert(ts.drop_first().len() == 0);
        assert(encode_types(ts.drop_last()) =~= Seq::<char>::empty());
        assert(encode_types(ts.drop_first()) =~= Seq::<char>::empty());
        assert(ts.last() == ts[0]);
        assert(encode_types(ts) =~= encode_type(ts[0]) + encode_types(ts.drop_first()));
    } else {
        lemma_encode_types_front(ts.drop_last());
        assert(ts.drop_last().drop_first() =~= ts.drop_first().drop_last());
        assert(ts.drop_first().last() == ts.last());
        assert(encode_types(ts) =~= encode_type(ts[0]) + encode_types(ts.drop_first()));
    }
}

proof fn lemma_encode_types_clean(ts: Seq<TypeV>)
    ensures
        clean(encode_types(ts)),
        ts.len() > 0 ==> encode_types(ts).len() > 0,
{
    if ts.len() > 0 {
        lemma_encode_types_front(ts);
        lemma_encode_first(ts[0]);
        assert((encode_type(ts[0]) + encode_types(ts.drop_first()))[0] == encode_type(ts[0])[0]);
    }
}

proof fn lemma_encode_types_injective(a: Seq<TypeV>, b: Seq<TypeV>)
    requires
        forall|i: int| 0 <= i < a.len() ==> type_ok(#[trigger] a[i]),
        forall|i: int| 0 <= i < b.len() ==> type_ok(#[trigger] b[i]),
        encode_types(a) == encode_types(b),
    ensures
        a == b,
    decreases a.len(),
{
    lemma_encode_types_clean(a);
    lemma_encode_types_clean(b);
    if a.len() == 0 || b.len() == 0 {
        assert(a =~= b);
    } else {
        lemma_encode_types_front(a);
        lemma_encode_types_front(b);
        lemma_encode_types_clean(a.drop_first());
        lemma_encode_types_clean(b.drop_first());
        lemma_encode_prefix(a[0], b[0], encode_types(a.drop_first()), encode_types(b.drop_first()));
        lemma_encode_types_injective(a.drop_first(), b.drop_first());
        assert(a =~= seq![a[0]] + a.drop_first());
        assert(b =~= seq![b[0]] + b.drop_first());
    }
}

/// Mangled signatures are injective: two functions with the same signature
/// have the same name, return type and parameter types (so in particular the
/// same parameter families), provided names do not start with a digit and
/// no type name is spelled like a short code.
pub proof fn law_signature_injective(
    n1: Seq<char>,
    r1: TypeV,
    a1: Seq<TypeV>,
    n2: Seq<char>,
    r2: TypeV,
    a2: Seq<TypeV>,
)
    requires
        name_ok(n1),
        name_ok(n2),
        type_ok(r1),
        type_ok(r2),
        forall|i: int| 0 <= i < a1.len() ==> type_ok(#[trigger] a1[i]),
        forall|i: int| 0 <= i < a2.len() ==> type_ok(#[trigger] a2[i]),
        signature(n1, r1, a1) == signature(n2, r2, a2),
    ensures
        n1 == n2,
        r1 == r2,
        a1 == a2,
{
    reveal_strlit("main");
    let s1 = signature(n1, r1, a1);
    let s2 = signature(n2, r2, a2);
    if is_entry(n1, r1, a1) && is_entry(n2, r2, a2) {
        assert(a1 =~= a2);
    } else if is_entry(n1, r1, a1) {
        assert(s1[0] == 'm');
        assert(s2[0] == '_');
    } else if is_entry(n2, r2, a2) {
        assert(s2[0] == 'm');
        assert(s1[0] == '_');
    } else {
        let t1 = encode_type(r1) + encode_types(a1);
        let t2 = encode_type(r2) + encode_types(a2);
        lemma_encode_types_clean(a1);
        lemma_encode_types_clean(a2);
        lemma_encode_first(r1);
        lemma_encode_first(r2);
        let x1 = n1 + t1;
        let x2 = n2 + t2;
        assert(s1 =~= seq!['_', 'H', 'x'] + (dec_nat(n1.len()) + x1));
        assert(s2 =~= seq!['_', 'H', 'x'] + (dec_nat(n2.len()) + x2));
        assert(s1.subrange(3, s1.len() as int) =~= dec_nat(n1.len()) + x1);
        assert(s2.subrange(3, s2.len() as int) =~= dec_nat(n2.len()) + x2);
        assert(clean(x1)) by {
            if n1.len() > 0 {
                assert(x1[0] == n1[0]);
            } else {
                assert(x1 =~= t1);
                assert(t1[0] == encode_type(r1)[0]);
            }
        }
        assert(clean(x2)) by {
            if n2.len() > 0 {
                assert(x2[0] == n2[0]);
            } else {
                assert(x2 =~= t2);
                assert(t2[0] == encode_type(r2)[0]);
            }
        }
        lemma_dec_prefix(n1.len(), n2.len(), x1, x2);
        assert(n1 =~= x1.subrange(0, n1.len() as int));
        assert(n2 =~= x2.subrange(0, n2.len() as int));
        assert(t1 =~= x1.subrange(n1.len() as int, x1.len() as int));
        assert(t2 =~= x2.subrange(n2.len() as int, x2.len() as int));
        lemma_encode_prefix(r1, r2, encode_types(a1), encode_types(a2));
        lemma_encode_types_injective(a1, a2);
    }
}

} // verus!
