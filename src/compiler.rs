use vstd::prelude::*;
use crate::parser::{Datum, DatumModel, datum_model, equal_chars, copy_chars};

verus! {

/// A built-in operation, run without a call frame of its own.
#[derive(Debug, PartialEq, Eq, Clone, Copy)]
pub enum Primitive {
    /// integer addition of any number of arguments
    Add,
}

/// A special form that the compiler recognizes.
#[derive(Debug, PartialEq, Eq, Clone, Copy)]
pub enum Syntax {
    Lambda,
}

/// What a global name stands for.
#[derive(Debug, PartialEq, Eq, Clone, Copy)]
pub enum EnvVar {
    Syntax(Syntax),
    PrimFunc(Primitive),
}

/// The outermost environment: names bound to special forms and primitives.
/// A later binding of a name hides an earlier one.
pub struct GlobalEnv {
    names: Vec<Vec<char>>,
    bindings: Vec<EnvVar>,
}

/// The binding of `name` in the global entries, the latest one first.
pub open spec fn global_lookup(names: Seq<Seq<char>>, bindings: Seq<EnvVar>, name: Seq<char>) -> Option<EnvVar>
    decreases names.len(),
{
    if names.len() == 0 || bindings.len() != names.len() {
        None
    } else if names.last() == name {
        Some(bindings.last())
    } else {
        global_lookup(names.drop_last(), bindings.drop_last(), name)
    }
}

impl GlobalEnv {
    pub closed spec fn names(&self) -> Seq<Seq<char>> {
        self.names@.map_values(|v: Vec<char>| v@)
    }

    pub closed spec fn bindings(&self) -> Seq<EnvVar> {
        self.bindings@
    }

    pub closed spec fn wf(&self) -> bool {
        self.names@.len() == self.bindings@.len()
    }

    /// The binding of `name`.
    pub open spec fn lookup(&self, name: Seq<char>) -> Option<EnvVar> {
        global_lookup(self.names(), self.bindings(), name)
    }

    /// An environment that binds nothing.
    pub fn new() -> (r: GlobalEnv)
        ensures
            r.wf(),
            forall|n: Seq<char>| r.lookup(n) is None,
    {
        GlobalEnv { names: Vec::new(), bindings: Vec::new() }
    }

    /// Binds `name` to `binding`, hiding any earlier binding of it.
    pub fn insert(&mut self, name: &str, binding: EnvVar)
        requires
            old(self).wf(),
            name@.len() < usize::MAX,
        ensures
            final(self).wf(),
            final(self).lookup(name@) == Some(binding),
            forall|n: Seq<char>| n != name@ ==> final(self).lookup(n) == old(self).lookup(n),
    {
        let n = name.unicode_len();
        let mut text: Vec<char> = Vec::new();
        let mut i: usize = 0;
        while i < n
            invariant
                n == name@.len(),
                i <= n,
                text@ == name@.take(i as int),
            decreases n - i,
        {
            text.push(name.get_char(i));
            i = i + 1;
            assert(text@ =~= name@.take(i as int));
        }
        assert(text@ =~= name@);
        let ghost old_names = self.names();
        let ghost old_bindings = self.bindings();
        self.names.push(text);
        self.bindings.push(binding);
        proof {
            assert(self.names().drop_last() =~= old_names);
            assert(self.bindings().drop_last() =~= old_bindings);
            assert(self.names().last() == name@);
        }
    }

    fn find(&self, name: &Vec<char>) -> (r: Option<EnvVar>)
        requires
            self.wf(),
        ensures
            r == self.lookup(name@),
    {
        let mut k: usize = self.names.len();
        assert(self.names().take(k as int) =~= self.names());
        assert(self.bindings().take(k as int) =~= self.bindings());
        while k > 0
            invariant
                self.wf(),
                k <= self.names@.len(),
                self.lookup(name@) == global_lookup(
                    self.names().take(k as int),
                    self.bindings().take(k as int),
                    name@,
                ),
            decreases k,
        {
            let ghost ns = self.names().take(k as int);
            let ghost bs = self.bindings().take(k as int);
            assert(ns.last() == self.names@[k - 1]@);
            if equal_chars(&self.names[k - 1], name) {
                assert(ns.last() == name@);
                return Some(self.bindings[k - 1]);
            }
            assert(ns.drop_last() =~= self.names().take(k - 1));
            assert(bs.drop_last() =~= self.bindings().take(k - 1));
            k = k - 1;
        }
        None
    }
}



/// A constant that code pushes. A character is an index into the program's
/// table of character names.
#[derive(Debug, PartialEq, Eq, Clone, Copy)]
pub enum Const {
    Boolean(bool),
    Character(usize),
    Number(i64),
    EmptyList,
}

/// One instruction of the stack machine.
#[derive(Debug, PartialEq, Eq, Clone, Copy)]
pub enum Instr {
    PushConstant(Const),
    /// the variable `index` of the frame `depth` levels out from the current one
    PushVariable { depth: usize, index: usize },
    PushPrimitive(Primitive),
    /// a closure over the current frame chain, running lambda number `n`
    MakeClosure(usize),
    /// calls the value below its `n` arguments
    Call(usize),
    /// drops the top of the stack
    Pop,
}

/// The code of a `lambda`. A variadic lambda binds the arguments past its
/// other formals, as a list, to its last formal.
#[derive(Debug, PartialEq)]
pub struct Lambda {
    pub n_formals: usize,
    pub variadic: bool,
    pub body: Vec<Instr>,
}

/// A compiled program: its lambdas, the names of its character constants,
/// and the code of the top level.
#[derive(Debug, PartialEq)]
pub struct Bytecode {
    pub lambdas: Vec<Lambda>,
    pub characters: Vec<Vec<char>>,
    pub main: Vec<Instr>,
}

/// What compiling has produced besides the code at hand.
struct Emitted {
    lambdas: Vec<Lambda>,
    characters: Vec<Vec<char>>,
}

impl Emitted {
    spec fn tables(&self) -> Tables {
        tables_of(self.lambdas@, self.characters@)
    }
}

/// Why a datum does not compile.
#[derive(Debug, PartialEq)]
pub enum CompileError {
    /// a name bound nowhere
    Unbound(Vec<char>),
    /// a special form's keyword where a value is required
    SyntaxAsValue(Vec<char>),
    /// a number literal that is not digits or does not fit in an `i64`
    BadNumber(Vec<char>),
    /// a call whose arguments are not a proper list
    ImproperCall,
    /// a call with more arguments than a `usize` counts
    TooManyArguments,
    /// a `lambda` without formals or body, or with an improper body
    BadLambda,
    /// a formal that is not a symbol
    BadFormals,
}

pub enum CompileFault {
    Unbound(Seq<char>),
    SyntaxAsValue(Seq<char>),
    BadNumber(Seq<char>),
    ImproperCall,
    TooManyArguments,
    BadLambda,
    BadFormals,
}

impl View for CompileError {
    type V = CompileFault;

    open spec fn view(&self) -> CompileFault {
        match self {
            CompileError::Unbound(n) => CompileFault::Unbound(n@),
            CompileError::SyntaxAsValue(n) => CompileFault::SyntaxAsValue(n@),
            CompileError::BadNumber(n) => CompileFault::BadNumber(n@),
            CompileError::ImproperCall => CompileFault::ImproperCall,
            CompileError::TooManyArguments => CompileFault::TooManyArguments,
            CompileError::BadLambda => CompileFault::BadLambda,
            CompileError::BadFormals => CompileFault::BadFormals,
        }
    }
}

/// The lexical frames, innermost last, each the names of one lambda's formals.
pub type Scopes = Seq<Seq<Seq<char>>>;

pub open spec fn scopes_model(v: Seq<Vec<Vec<char>>>) -> Scopes {
    v.map_values(|f: Vec<Vec<char>>| f@.map_values(|n: Vec<char>| n@))
}

/// The index of the last occurrence of `name` in a frame.
pub open spec fn frame_index(f: Seq<Seq<char>>, name: Seq<char>) -> Option<nat>
    decreases f.len(),
{
    if f.len() == 0 {
        None
    } else if f.last() == name {
        Some((f.len() - 1) as nat)
    } else {
        frame_index(f.drop_last(), name)
    }
}

pub open spec fn deeper(o: Option<(nat, nat)>, n: nat) -> Option<(nat, nat)> {
    match o {
        Some(p) => Some((p.0 + n, p.1)),
        None => None,
    }
}

/// Where `name` is bound in the lexical frames: how many frames out from the
/// innermost, and its index there.
pub open spec fn resolve(sc: Scopes, name: Seq<char>) -> Option<(nat, nat)>
    decreases sc.len(),
{
    if sc.len() == 0 {
        None
    } else {
        match frame_index(sc.last(), name) {
            Some(k) => Some((0, k)),
            None => deeper(resolve(sc.drop_last(), name), 1),
        }
    }
}

pub open spec fn digits_value(t: Seq<char>) -> nat
    decreases t.len(),
{
    if t.len() == 0 {
        0
    } else {
        digits_value(t.drop_last()) * 10 + (t.last() as nat - '0' as nat) as nat
    }
}

pub open spec fn all_digits(t: Seq<char>) -> bool {
    forall|i: int| 0 <= i < t.len() ==> '0' <= #[trigger] t[i] && t[i] <= '9'
}

/// Whether a number literal denotes an `i64`.
pub open spec fn number_fits(t: Seq<char>) -> bool {
    t.len() > 0 && all_digits(t) && digits_value(t) <= i64::MAX
}

/// The names of a formal-parameter list, and whether it ends in a rest formal.
pub open spec fn formals_of(d: DatumModel) -> Option<(Seq<Seq<char>>, bool)>
    decreases d,
{
    match d {
        DatumModel::EmptyList => Some((Seq::empty(), false)),
        DatumModel::Symbol(n) => Some((seq![n], true)),
        DatumModel::Pair(h, t) => match *h {
            DatumModel::Symbol(n) => match formals_of(*t) {
                Some(p) => Some((seq![n] + p.0, p.1)),
                None => None,
            },
            _ => None,
        },
        _ => None,
    }
}

/// Whether `h`, the head of a list, is the keyword `lambda`.
pub open spec fn is_lambda_keyword(h: DatumModel, sc: Scopes, g: GlobalEnv) -> bool {
    h is Symbol && resolve(sc, h->Symbol_0) is None && g.lookup(h->Symbol_0) == Some(
        EnvVar::Syntax(Syntax::Lambda),
    )
}

/// The first fault met in compiling `d` as an expression, if any.
pub open spec fn check_expr(d: DatumModel, sc: Scopes, g: GlobalEnv) -> Option<CompileFault>
    decreases d,
{
    match d {
        DatumModel::Boolean(_) => None,
        DatumModel::Character(_) => None,
        DatumModel::Number(t) => if number_fits(t) {
            None
        } else {
            Some(CompileFault::BadNumber(t))
        },
        DatumModel::Symbol(n) => if resolve(sc, n) is Some {
            None
        } else {
            match g.lookup(n) {
                Some(EnvVar::Syntax(_)) => Some(CompileFault::SyntaxAsValue(n)),
                Some(EnvVar::PrimFunc(_)) => None,
                None => Some(CompileFault::Unbound(n)),
            }
        },
        DatumModel::EmptyList => None,
        DatumModel::Pair(h, rest) => if is_lambda_keyword(*h, sc, g) {
            check_lambda(*rest, sc, g)
        } else {
            match check_expr(*h, sc, g) {
                Some(e) => Some(e),
                None => check_args(*rest, sc, g, 0),
            }
        },
    }
}

/// The first fault met in compiling the arguments `l` of a call, `n` of them
/// before `l`.
pub open spec fn check_args(l: DatumModel, sc: Scopes, g: GlobalEnv, n: nat) -> Option<CompileFault>
    decreases l,
{
    match l {
        DatumModel::EmptyList => None,
        DatumModel::Pair(a, r) => match check_expr(*a, sc, g) {
            Some(e) => Some(e),
            None => if n + 1 > usize::MAX {
                Some(CompileFault::TooManyArguments)
            } else {
                check_args(*r, sc, g, n + 1)
            },
        },
        _ => Some(CompileFault::ImproperCall),
    }
}

/// The first fault met in compiling `(lambda . rest)`.
pub open spec fn check_lambda(rest: DatumModel, sc: Scopes, g: GlobalEnv) -> Option<CompileFault>
    decreases rest,
{
    match rest {
        DatumModel::Pair(formals, body) => match formals_of(*formals) {
            None => Some(CompileFault::BadFormals),
            Some(p) => check_body(*body, sc.push(p.0), g),
        },
        _ => Some(CompileFault::BadLambda),
    }
}

/// The first fault met in compiling a lambda body `l`, a non-empty proper list.
pub open spec fn check_body(l: DatumModel, sc: Scopes, g: GlobalEnv) -> Option<CompileFault>
    decreases l,
{
    match l {
        DatumModel::Pair(e, r) => match check_expr(*e, sc, g) {
            Some(f) => Some(f),
            None => if *r is EmptyList {
                None
            } else if *r is Pair {
                check_body(*r, sc, g)
            } else {
                Some(CompileFault::BadLambda)
            },
        },
        _ => Some(CompileFault::BadLambda),
    }
}

/// A lambda as a value: its formals and its body's code.
pub struct LambdaModel {
    pub n_formals: usize,
    pub variadic: bool,
    pub body: Seq<Instr>,
}

pub open spec fn lambda_model(l: Lambda) -> LambdaModel {
    LambdaModel { n_formals: l.n_formals, variadic: l.variadic, body: l.body@ }
}

/// What compiling has produced besides the code at hand: the lambdas and the
/// character names, in the order they were met.
pub type Tables = (Seq<LambdaModel>, Seq<Seq<char>>);

/// The code that compiling `d` emits, and the tables after it, starting from
/// tables `o`. It is what is emitted where `check_expr` finds no fault.
pub open spec fn emit_expr(d: DatumModel, sc: Scopes, g: GlobalEnv, o: Tables) -> (Seq<Instr>, Tables)
    decreases d,
{
    match d {
        DatumModel::Boolean(b) => (seq![Instr::PushConstant(Const::Boolean(b))], o),
        DatumModel::Character(t) => (
            seq![Instr::PushConstant(Const::Character(o.1.len() as usize))],
            (o.0, o.1.push(t)),
        ),
        DatumModel::Number(t) => (
            seq![Instr::PushConstant(Const::Number(digits_value(t) as i64))],
            o,
        ),
        DatumModel::Symbol(n) => match resolve(sc, n) {
            Some(p) => (
                seq![Instr::PushVariable { depth: p.0 as usize, index: p.1 as usize }],
                o,
            ),
            None => match g.lookup(n) {
                Some(EnvVar::PrimFunc(p)) => (seq![Instr::PushPrimitive(p)], o),
                _ => (Seq::empty(), o),
            },
        },
        DatumModel::EmptyList => (seq![Instr::PushConstant(Const::EmptyList)], o),
        DatumModel::Pair(h, rest) => if is_lambda_keyword(*h, sc, g) {
            emit_lambda(*rest, sc, g, o)
        } else {
            let (c1, o1) = emit_expr(*h, sc, g, o);
            let (c2, o2) = emit_args(*rest, sc, g, o1, 0);
            (c1 + c2, o2)
        },
    }
}

/// The code for the arguments `l` of a call with `n` arguments before `l`,
/// ending in the call itself.
pub open spec fn emit_args(l: DatumModel, sc: Scopes, g: GlobalEnv, o: Tables, n: nat) -> (Seq<Instr>, Tables)
    decreases l,
{
    match l {
        DatumModel::EmptyList => (seq![Instr::Call(n as usize)], o),
        DatumModel::Pair(a, r) => {
            let (c1, o1) = emit_expr(*a, sc, g, o);
            let (c2, o2) = emit_args(*r, sc, g, o1, n + 1);
            (c1 + c2, o2)
        },
        _ => (Seq::empty(), o),
    }
}

/// The code for `(lambda . rest)`: the body goes into a new lambda, after
/// those its own lambdas added, and the code makes a closure of it.
pub open spec fn emit_lambda(rest: DatumModel, sc: Scopes, g: GlobalEnv, o: Tables) -> (Seq<Instr>, Tables)
    decreases rest,
{
    match rest {
        DatumModel::Pair(formals, body) => match formals_of(*formals) {
            Some(p) => {
                let (b, o1) = emit_body(*body, sc.push(p.0), g, o);
                (
                    seq![Instr::MakeClosure(o1.0.len() as usize)],
                    (
                        o1.0.push(
                            LambdaModel { n_formals: p.0.len() as usize, variadic: p.1, body: b },
                        ),
                        o1.1,
                    ),
                )
            },
            None => (Seq::empty(), o),
        },
        _ => (Seq::empty(), o),
    }
}

/// The code for a lambda body: each expression, the value of each but the
/// last dropped.
pub open spec fn emit_body(l: DatumModel, sc: Scopes, g: GlobalEnv, o: Tables) -> (Seq<Instr>, Tables)
    decreases l,
{
    match l {
        DatumModel::Pair(e, r) => {
            let (c1, o1) = emit_expr(*e, sc, g, o);
            if *r is Pair {
                let (c2, o2) = emit_body(*r, sc, g, o1);
                (c1 + seq![Instr::Pop] + c2, o2)
            } else {
                (c1, o1)
            }
        },
        _ => (Seq::empty(), o),
    }
}

pub open spec fn tables_of(lambdas: Seq<Lambda>, characters: Seq<Vec<char>>) -> Tables {
    (lambdas.map_values(|l: Lambda| lambda_model(l)), characters.map_values(|c: Vec<char>| c@))
}

/// Whether the code and tables after a successful compile step are what the
/// step emits: `code0` and `o0` before it, `code1` and `o1` after.
pub open spec fn emitted(code0: Seq<Instr>, o0: Tables, code1: Seq<Instr>, o1: Tables, e: (Seq<Instr>, Tables)) -> bool {
    code1 == code0 + e.0 && o1 == e.1
}

/// Whether an exec outcome reports the fault `f`, or success where there is none.
pub open spec fn outcome_is<T>(r: Result<T, CompileError>, f: Option<CompileFault>) -> bool {
    match f {
        None => r is Ok,
        Some(e) => r is Err && r->Err_0@ == e,
    }
}

pub proof fn lemma_digits_prefix(t: Seq<char>, i: int)
    requires
        0 <= i <= t.len(),
        all_digits(t),
    ensures
        digits_value(t.take(i)) <= digits_value(t),
    decreases t.len(),
{
    if i < t.len() {
        let u = t.drop_last();
        assert(all_digits(u));
        assert(u.take(i) =~= t.take(i));
        lemma_digits_prefix(u, i);
    } else {
        assert(t.take(i) =~= t);
    }
}

/// The `i64` that a number literal denotes, if it denotes one.
fn parse_number(t: &Vec<char>) -> (r: Option<i64>)
    ensures
        r is Some <==> number_fits(t@),
        r is Some ==> r->Some_0 >= 0 && r->Some_0 as nat == digits_value(t@),
{
    if t.len() == 0 {
        return None;
    }
    let mut acc: i64 = 0;
    let mut i: usize = 0;
    while i < t.len()
        invariant
            i <= t@.len(),
            acc >= 0,
            acc as nat == digits_value(t@.take(i as int)),
            all_digits(t@.take(i as int)),
        decreases t@.len() - i,
    {
        let c = t[i];
        if !('0' <= c && c <= '9') {
            assert(!all_digits(t@));
            return None;
        }
        let d = (c as u32 - '0' as u32) as i64;
        assert(t@.take(i + 1).drop_last() =~= t@.take(i as int));
        let next = match acc.checked_mul(10) {
            Some(m) => m.checked_add(d),
            None => None,
        };
        match next {
            Some(v) => {
                acc = v;
                i = i + 1;
            },
            None => {
                proof {
                    if all_digits(t@) {
                        lemma_digits_prefix(t@, i + 1);
                    }
                }
                return None;
            },
        }
    }
    assert(t@.take(i as int) =~= t@);
    Some(acc)
}

fn find_in_frame(f: &Vec<Vec<char>>, name: &Vec<char>) -> (r: Option<usize>)
    ensures
        match frame_index(f@.map_values(|n: Vec<char>| n@), name@) {
            Some(k) => r == Some(k as usize),
            None => r is None,
        },
{
    let ghost m = f@.map_values(|n: Vec<char>| n@);
    let mut k: usize = f.len();
    assert(m.take(k as int) =~= m);
    while k > 0
        invariant
            k <= f@.len(),
            m == f@.map_values(|n: Vec<char>| n@),
            frame_index(m, name@) == frame_index(m.take(k as int), name@),
        decreases k,
    {
        let ghost mk = m.take(k as int);
        assert(mk.last() == f@[k - 1]@);
        if equal_chars(&f[k - 1], name) {
            return Some(k - 1);
        }
        assert(mk.drop_last() =~= m.take(k - 1));
        k = k - 1;
    }
    None
}

fn resolve_local(scopes: &Vec<Vec<Vec<char>>>, name: &Vec<char>) -> (r: Option<(usize, usize)>)
    ensures
        match resolve(scopes_model(scopes@), name@) {
            Some(p) => r == Some((p.0 as usize, p.1 as usize)),
            None => r is None,
        },
{
    let ghost m = scopes_model(scopes@);
    let n = scopes.len();
    let mut k: usize = n;
    assert(m.take(k as int) =~= m);
    while k > 0
        invariant
            n == scopes@.len(),
            k <= n,
            m == scopes_model(scopes@),
            resolve(m, name@) == deeper(resolve(m.take(k as int), name@), (n - k) as nat),
        decreases k,
    {
        let ghost mk = m.take(k as int);
        assert(mk.last() == scopes@[k - 1]@.map_values(|c: Vec<char>| c@));
        match find_in_frame(&scopes[k - 1], name) {
            Some(j) => {
                return Some((n - k, j));
            },
            None => {
                assert(mk.drop_last() =~= m.take(k - 1));
                k = k - 1;
            },
        }
    }
    None
}

fn formals(d: &Datum) -> (r: Option<(Vec<Vec<char>>, bool)>)
    ensures
        match formals_of(d@) {
            Some(p) => r is Some && r->Some_0.0@.map_values(|n: Vec<char>| n@) == p.0 && r->Some_0.1
                == p.1,
            None => r is None,
        },
    decreases d,
{
    match d {
        Datum::EmptyList => {
            let v: Vec<Vec<char>> = Vec::new();
            assert(v@.map_values(|n: Vec<char>| n@) =~= Seq::<Seq<char>>::empty());
            Some((v, false))
        },
        Datum::Symbol(n) => {
            let mut v: Vec<Vec<char>> = Vec::new();
            v.push(copy_chars(n));
            assert(v@.map_values(|n: Vec<char>| n@) =~= seq![n@]);
            Some((v, true))
        },
        Datum::Pair(h, t) => match &**h {
            Datum::Symbol(n) => match formals(t) {
                Some((rest, variadic)) => {
                    let mut v: Vec<Vec<char>> = Vec::new();
                    v.push(copy_chars(n));
                    let ghost rm = rest@.map_values(|n: Vec<char>| n@);
                    let mut rest = rest;
                    v.append(&mut rest);
                    assert(v@.map_values(|n: Vec<char>| n@) =~= seq![n@] + rm);
                    assert(datum_model(**h) == DatumModel::Symbol(n@));
                    Some((v, variadic))
                },
                None => {
                    assert(datum_model(**h) == DatumModel::Symbol(n@));
                    None
                },
            },
            _ => {
                assert(!(datum_model(**h) is Symbol));
                None
            },
        },
        _ => None,
    }
}

fn is_lambda_head(h: &Datum, glob: &GlobalEnv, scopes: &Vec<Vec<Vec<char>>>) -> (r: bool)
    requires
        glob.wf(),
    ensures
        r == is_lambda_keyword(h@, scopes_model(scopes@), *glob),
{
    match h {
        Datum::Symbol(n) => {
            if resolve_local(scopes, n).is_some() {
                false
            } else {
                match glob.find(n) {
                    Some(EnvVar::Syntax(Syntax::Lambda)) => true,
                    _ => false,
                }
            }
        },
        _ => false,
    }
}

fn compile_symbol(n: &Vec<char>, glob: &GlobalEnv, scopes: &Vec<Vec<Vec<char>>>, code: &mut Vec<Instr>) -> (r: Result<(), CompileError>)
    requires
        glob.wf(),
    ensures
        outcome_is(r, check_expr(DatumModel::Symbol(n@), scopes_model(scopes@), *glob)),
        r is Ok ==> final(code)@ == old(code)@ + emit_expr(
            DatumModel::Symbol(n@),
            scopes_model(scopes@),
            *glob,
            (Seq::empty(), Seq::empty()),
        ).0,
{
    match resolve_local(scopes, n) {
        Some((depth, index)) => {
            code.push(Instr::PushVariable { depth, index });
            Ok(())
        },
        None => match glob.find(n) {
            Some(EnvVar::Syntax(_)) => Err(CompileError::SyntaxAsValue(copy_chars(n))),
            Some(EnvVar::PrimFunc(p)) => {
                code.push(Instr::PushPrimitive(p));
                Ok(())
            },
            None => Err(CompileError::Unbound(copy_chars(n))),
        },
    }
}

fn compile_expr(
    d: &Datum,
    glob: &GlobalEnv,
    scopes: &mut Vec<Vec<Vec<char>>>,
    code: &mut Vec<Instr>,
    out: &mut Emitted,
) -> (r: Result<(), CompileError>)
    requires
        glob.wf(),
    ensures
        final(scopes)@ == old(scopes)@,
        outcome_is(r, check_expr(d@, scopes_model(old(scopes)@), *glob)),
        r is Ok ==> emitted(
            old(code)@,
            old(out).tables(),
            final(code)@,
            final(out).tables(),
            emit_expr(d@, scopes_model(old(scopes)@), *glob, old(out).tables()),
        ),
    decreases d,
{
    let ghost c0 = code@;
    let ghost o0 = out.tables();
    let ghost sc = scopes_model(scopes@);
    match d {
        Datum::Boolean(b) => {
            code.push(Instr::PushConstant(Const::Boolean(*b)));
            assert(code@ =~= c0 + emit_expr(d@, sc, *glob, o0).0);
            Ok(())
        },
        Datum::Character(t) => {
            let idx = out.characters.len();
            out.characters.push(copy_chars(t));
            code.push(Instr::PushConstant(Const::Character(idx)));
            assert(code@ =~= c0 + emit_expr(d@, sc, *glob, o0).0);
            assert(out.tables().1 =~= o0.1.push(t@));
            assert(out.tables().0 =~= o0.0);
            Ok(())
        },
        Datum::Number(t) => match parse_number(t) {
            Some(v) => {
                code.push(Instr::PushConstant(Const::Number(v)));
                assert(code@ =~= c0 + emit_expr(d@, sc, *glob, o0).0);
                Ok(())
            },
            None => Err(CompileError::BadNumber(copy_chars(t))),
        },
        Datum::Symbol(n) => compile_symbol(n, glob, scopes, code),
        Datum::EmptyList => {
            code.push(Instr::PushConstant(Const::EmptyList));
            assert(code@ =~= c0 + emit_expr(d@, sc, *glob, o0).0);
            Ok(())
        },
        Datum::Pair(h, rest) => {
            if is_lambda_head(h, glob, scopes) {
                compile_lambda(rest, glob, scopes, code, out)
            } else {
                match compile_expr(h, glob, scopes, code, out) {
                    Ok(()) => {},
                    Err(e) => {
                        return Err(e);
                    },
                }
                let ghost c1 = code@;
                let r = compile_args(rest, glob, scopes, code, out, 0);
                proof {
                    if r is Ok {
                        let e1 = emit_expr(h@, sc, *glob, o0);
                        let e2 = emit_args(rest@, sc, *glob, e1.1, 0);
                        assert(code@ =~= c0 + (e1.0 + e2.0));
                    }
                }
                r
            }
        },
    }
}

fn compile_args(
    l: &Datum,
    glob: &GlobalEnv,
    scopes: &mut Vec<Vec<Vec<char>>>,
    code: &mut Vec<Instr>,
    out: &mut Emitted,
    n: usize,
) -> (r: Result<(), CompileError>)
    requires
        glob.wf(),
    ensures
        final(scopes)@ == old(scopes)@,
        outcome_is(r, check_args(l@, scopes_model(old(scopes)@), *glob, n as nat)),
        r is Ok ==> emitted(
            old(code)@,
            old(out).tables(),
            final(code)@,
            final(out).tables(),
            emit_args(l@, scopes_model(old(scopes)@), *glob, old(out).tables(), n as nat),
        ),
    decreases l,
{
    let ghost c0 = code@;
    let ghost o0 = out.tables();
    let ghost sc = scopes_model(scopes@);
    match l {
        Datum::EmptyList => {
            code.push(Instr::Call(n));
            assert(code@ =~= c0 + emit_args(l@, sc, *glob, o0, n as nat).0);
            Ok(())
        },
        Datum::Pair(a, rest) => {
            match compile_expr(a, glob, scopes, code, out) {
                Ok(()) => {},
                Err(e) => {
                    return Err(e);
                },
            }
            if n == usize::MAX {
                return Err(CompileError::TooManyArguments);
            }
            let r = compile_args(rest, glob, scopes, code, out, n + 1);
            proof {
                if r is Ok {
                    let e1 = emit_expr(a@, sc, *glob, o0);
                    let e2 = emit_args(rest@, sc, *glob, e1.1, n as nat + 1);
                    assert(code@ =~= c0 + (e1.0 + e2.0));
                }
            }
            r
        },
        _ => Err(CompileError::ImproperCall),
    }
}

fn compile_lambda(
    rest: &Datum,
    glob: &GlobalEnv,
    scopes: &mut Vec<Vec<Vec<char>>>,
    code: &mut Vec<Instr>,
    out: &mut Emitted,
) -> (r: Result<(), CompileError>)
    requires
        glob.wf(),
    ensures
        final(scopes)@ == old(scopes)@,
        outcome_is(r, check_lambda(rest@, scopes_model(old(scopes)@), *glob)),
        r is Ok ==> emitted(
            old(code)@,
            old(out).tables(),
            final(code)@,
            final(out).tables(),
            emit_lambda(rest@, scopes_model(old(scopes)@), *glob, old(out).tables()),
        ),
    decreases rest,
{
    let ghost c0 = code@;
    let ghost o0 = out.tables();
    match rest {
        Datum::Pair(fs, body) => match formals(fs) {
            None => Err(CompileError::BadFormals),
            Some((names, variadic)) => {
                let n_formals = names.len();
                let ghost before = scopes@;
                let ghost nm = names@.map_values(|n: Vec<char>| n@);
                scopes.push(names);
                assert(scopes_model(scopes@) =~= scopes_model(before).push(nm));
                let mut body_code: Vec<Instr> = Vec::new();
                let res = compile_body(body, glob, scopes, &mut body_code, out);
                scopes.pop();
                assert(scopes@ =~= before);
                match res {
                    Ok(()) => {
                        let ghost eb = emit_body(body@, scopes_model(before).push(nm), *glob, o0);
                        assert(body_code@ =~= eb.0);
                        let ghost o1 = out.tables();
                        let idx = out.lambdas.len();
                        let ghost lm = LambdaModel {
                            n_formals,
                            variadic,
                            body: body_code@,
                        };
                        out.lambdas.push(Lambda { n_formals, variadic, body: body_code });
                        assert(out.tables().0 =~= o1.0.push(lm));
                        assert(out.tables().1 =~= o1.1);
                        code.push(Instr::MakeClosure(idx));
                        assert(code@ =~= c0 + seq![Instr::MakeClosure(idx)]);
                        Ok(())
                    },
                    Err(e) => Err(e),
                }
            },
        },
        _ => Err(CompileError::BadLambda),
    }
}

fn compile_body(
    l: &Datum,
    glob: &GlobalEnv,
    scopes: &mut Vec<Vec<Vec<char>>>,
    code: &mut Vec<Instr>,
    out: &mut Emitted,
) -> (r: Result<(), CompileError>)
    requires
        glob.wf(),
    ensures
        final(scopes)@ == old(scopes)@,
        outcome_is(r, check_body(l@, scopes_model(old(scopes)@), *glob)),
        r is Ok ==> emitted(
            old(code)@,
            old(out).tables(),
            final(code)@,
            final(out).tables(),
            emit_body(l@, scopes_model(old(scopes)@), *glob, old(out).tables()),
        ),
    decreases l,
{
    let ghost c0 = code@;
    let ghost o0 = out.tables();
    let ghost sc = scopes_model(scopes@);
    match l {
        Datum::Pair(e, r) => {
            match compile_expr(e, glob, scopes, code, out) {
                Ok(()) => {},
                Err(f) => {
                    return Err(f);
                },
            }
            let ghost e1 = emit_expr(e@, sc, *glob, o0);
            match &**r {
                Datum::EmptyList => {
                    assert(datum_model(**r) is EmptyList);
                    Ok(())
                },
                Datum::Pair(_, _) => {
                    assert(datum_model(**r) is Pair);
                    code.push(Instr::Pop);
                    let res = compile_body(r, glob, scopes, code, out);
                    proof {
                        if res is Ok {
                            let e2 = emit_body(r@, sc, *glob, e1.1);
                            assert(code@ =~= c0 + (e1.0 + seq![Instr::Pop] + e2.0));
                        }
                    }
                    res
                },
                _ => {
                    assert(!(datum_model(**r) is Pair) && !(datum_model(**r) is EmptyList));
                    Err(CompileError::BadLambda)
                },
            }
        },
        _ => Err(CompileError::BadLambda),
    }
}

/// Compiles `d` against the global environment `glob`. It fails exactly when
/// the model finds a fault, and then with that fault: an unbound name, a
/// keyword used as a value, a malformed number, call or `lambda`. Otherwise
/// the program is the code and tables that the model emits.
pub fn compile(d: &Datum, glob: &GlobalEnv) -> (r: Result<Bytecode, CompileError>)
    requires
        glob.wf(),
    ensures
        outcome_is(r, check_expr(d@, Seq::empty(), *glob)),
        r is Ok ==> emit_expr(d@, Seq::empty(), *glob, (Seq::empty(), Seq::empty())) == (
            r->Ok_0.main@,
            tables_of(r->Ok_0.lambdas@, r->Ok_0.characters@),
        ),
{
    let mut scopes: Vec<Vec<Vec<char>>> = Vec::new();
    let mut main: Vec<Instr> = Vec::new();
    let mut out = Emitted { lambdas: Vec::new(), characters: Vec::new() };
    assert(scopes_model(scopes@) =~= Seq::<Seq<Seq<char>>>::empty());
    assert(out.tables().0 =~= Seq::<LambdaModel>::empty());
    assert(out.tables().1 =~= Seq::<Seq<char>>::empty());
    match compile_expr(d, glob, &mut scopes, &mut main, &mut out) {
        Ok(()) => {
            assert(main@ =~= Seq::<Instr>::empty() + main@);
            Ok(Bytecode { lambdas: out.lambdas, characters: out.characters, main })
        },
        Err(e) => Err(e),
    }
}

/// A name bound in no lexical frame and not in the global environment is
/// refused at compile time, as unbound.
pub proof fn lemma_unbound_name_rejected(name: Seq<char>, sc: Scopes, g: GlobalEnv)
    requires
        resolve(sc, name) is None,
        g.lookup(name) is None,
    ensures
        check_expr(DatumModel::Symbol(name), sc, g) == Some(CompileFault::Unbound(name)),
{
}

} // verus!
