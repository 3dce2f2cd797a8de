use vstd::prelude::*;
use crate::compiler::{Bytecode, Const, Instr, Primitive};

verus! {

/// A value of the running program.
#[derive(Debug, PartialEq)]
pub enum Value {
    Boolean(bool),
    Number(i64),
    /// a character, by its index in the program's table of character names
    Character(usize),
    /// lambda number `lambda` over the frame chain that starts at `env`
    Closure { lambda: usize, env: Option<usize> },
    Primitive(Primitive),
    Pair(Box<Value>, Box<Value>),
    EmptyList,
}

/// Why running failed.
#[derive(Debug, PartialEq, Eq, Clone, Copy)]
pub enum RuntimeError {
    /// a variable read that names no slot of the frame chain
    UnboundSlot,
    /// a call of a value that is neither a closure nor a primitive
    NotCallable,
    /// a closure called with a number of arguments it does not take
    ArityMismatch { expected: usize, given: usize },
    /// a primitive given an argument of the wrong kind
    NotANumber,
    /// an integer result out of the range of `i64`
    Overflow,
    /// code that no compilation produces: a bad index or too few stack values
    BadCode,
    /// the program did not finish within the steps it was given
    StepLimit,
}

/// The outcome of adding the numbers among the first `k` arguments, left to right.
pub open spec fn add_upto(args: Seq<Value>, k: int) -> Result<i64, RuntimeError>
    decreases k,
{
    if k <= 0 {
        Ok(0)
    } else {
        match add_upto(args, k - 1) {
            Err(e) => Err(e),
            Ok(s) => if !(args[k - 1] is Number) {
                Err(RuntimeError::NotANumber)
            } else if s + args[k - 1]->Number_0 > i64::MAX || s + args[k - 1]->Number_0
                < i64::MIN {
                Err(RuntimeError::Overflow)
            } else {
                Ok((s + args[k - 1]->Number_0) as i64)
            },
        }
    }
}

/// Once adding fails, adding more arguments fails the same way.
pub proof fn lemma_add_upto_fails_on(args: Seq<Value>, i: int, n: int)
    requires
        0 <= i <= n,
        add_upto(args, i) is Err,
    ensures
        add_upto(args, n) == add_upto(args, i),
    decreases n - i,
{
    if i < n {
        lemma_add_upto_fails_on(args, i, n - 1);
    }
}

/// What applying primitive `p` to `args` gives.
pub open spec fn primitive_result(p: Primitive, args: Seq<Value>) -> Result<i64, RuntimeError> {
    match p {
        Primitive::Add => add_upto(args, args.len() as int),
    }
}

/// Applies a primitive to its arguments.
pub fn apply_primitive(p: Primitive, args: &Vec<Value>) -> (r: Result<Value, RuntimeError>)
    ensures
        match primitive_result(p, args@) {
            Ok(n) => r == Ok::<Value, RuntimeError>(Value::Number(n)),
            Err(e) => r == Err::<Value, RuntimeError>(e),
        },
{
    match p {
        Primitive::Add => {
            let mut acc: i64 = 0;
            let mut i: usize = 0;
            while i < args.len()
                invariant
                    i <= args@.len(),
                    add_upto(args@, i as int) == Ok::<i64, RuntimeError>(acc),
                decreases args@.len() - i,
            {
                match &args[i] {
                    Value::Number(n) => match acc.checked_add(*n) {
                        Some(v) => {
                            acc = v;
                        },
                        None => {
                            proof {
                                lemma_add_upto_fails_on(args@, i + 1, args@.len() as int);
                            }
                            return Err(RuntimeError::Overflow);
                        },
                    },
                    _ => {
                        proof {
                            lemma_add_upto_fails_on(args@, i + 1, args@.len() as int);
                        }
                        return Err(RuntimeError::NotANumber);
                    },
                }
                i = i + 1;
            }
            Ok(Value::Number(acc))
        },
    }
}

/// The proper list of the values of `s`.
pub open spec fn list_value(s: Seq<Value>) -> Value
    decreases s.len(),
{
    if s.len() == 0 {
        Value::EmptyList
    } else {
        Value::Pair(Box::new(s[0]), Box::new(list_value(s.drop_first())))
    }
}

/// Whether a lambda with `n_formals` formals, the last a rest formal when
/// `variadic`, takes `given` arguments.
pub open spec fn arity_accepts(n_formals: nat, variadic: bool, given: nat) -> bool {
    if variadic {
        given + 1 >= n_formals
    } else {
        given == n_formals
    }
}

/// The slots of a new call frame for `args`, or why there is none.
pub open spec fn bound_slots(n_formals: usize, variadic: bool, args: Seq<Value>) -> Result<
    Seq<Value>,
    RuntimeError,
> {
    if variadic && n_formals == 0 {
        Err(RuntimeError::BadCode)
    } else if !arity_accepts(n_formals as nat, variadic, args.len()) {
        Err(
            RuntimeError::ArityMismatch {
                expected: if variadic {
                    (n_formals - 1) as usize
                } else {
                    n_formals
                },
                given: args.len() as usize,
            },
        )
    } else if !variadic {
        Ok(args)
    } else {
        Ok(args.take(n_formals - 1).push(list_value(args.skip(n_formals - 1))))
    }
}

/// The slots of a new call frame: the arguments in order, with those past the
/// other formals of a variadic lambda gathered into a list in the last slot.
pub fn bind_arguments(n_formals: usize, variadic: bool, args: Vec<Value>) -> (r: Result<
    Vec<Value>,
    RuntimeError,
>)
    ensures
        match bound_slots(n_formals, variadic, args@) {
            Ok(s) => r is Ok && r->Ok_0@ == s,
            Err(e) => r == Err::<Vec<Value>, RuntimeError>(e),
        },
{
    let given = args.len();
    if !variadic {
        if given != n_formals {
            return Err(RuntimeError::ArityMismatch { expected: n_formals, given });
        }
        return Ok(args);
    }
    if n_formals == 0 {
        return Err(RuntimeError::BadCode);
    }
    let required = n_formals - 1;
    if given < required {
        return Err(RuntimeError::ArityMismatch { expected: required, given });
    }
    let ghost all = args@;
    let mut args = args;
    let mut rest = Value::EmptyList;
    assert(all.skip(given as int) =~= Seq::<Value>::empty());
    while args.len() > required
        invariant
            required <= args@.len() <= given,
            given == all.len(),
            args@ == all.take(args@.len() as int),
            rest == list_value(all.skip(args@.len() as int)),
        decreases args@.len(),
    {
        let ghost k = args@.len() as int;
        let v = args.pop().unwrap();
        assert(all.skip(k - 1).drop_first() =~= all.skip(k));
        assert(all.skip(k - 1)[0] == v);
        rest = Value::Pair(Box::new(v), Box::new(rest));
        assert(args@ =~= all.take(k - 1));
    }
    args.push(rest);
    Ok(args)
}

fn copy_value(v: &Value) -> (r: Value)
    ensures
        r == *v,
    decreases v,
{
    match v {
        Value::Boolean(b) => Value::Boolean(*b),
        Value::Number(n) => Value::Number(*n),
        Value::Character(i) => Value::Character(*i),
        Value::Closure { lambda, env } => Value::Closure { lambda: *lambda, env: *env },
        Value::Primitive(p) => Value::Primitive(*p),
        Value::Pair(h, t) => Value::Pair(Box::new(copy_value(h)), Box::new(copy_value(t))),
        Value::EmptyList => Value::EmptyList,
    }
}

pub open spec fn const_value(c: Const) -> Value {
    match c {
        Const::Boolean(b) => Value::Boolean(b),
        Const::Character(i) => Value::Character(i),
        Const::Number(n) => Value::Number(n),
        Const::EmptyList => Value::EmptyList,
    }
}

/// One frame of the environment: the slots bound by one call, and the frame
/// that the called closure had captured.
struct Frame {
    parent: Option<usize>,
    slots: Vec<Value>,
}

/// Where a code sequence is running: which lambda (none for the top level),
/// the next instruction, and the current frame.
#[derive(Debug, PartialEq, Eq, Clone, Copy)]
pub struct Activation {
    pub lambda: Option<usize>,
    pub pc: usize,
    pub env: Option<usize>,
}

/// What one step of the machine leads to.
#[derive(Debug, PartialEq)]
pub enum Step {
    Continue,
    Done(Value),
    Fail(RuntimeError),
}

/// The state of the machine: each frame as its parent and slots, the operand
/// stack, the suspended activations of the callers, and the running one.
pub struct MachineModel {
    pub frames: Seq<(Option<usize>, Seq<Value>)>,
    pub stack: Seq<Value>,
    pub calls: Seq<Activation>,
    pub current: Activation,
}

/// The machine about to run the top level.
pub open spec fn initial_machine() -> MachineModel {
    MachineModel {
        frames: Seq::empty(),
        stack: Seq::empty(),
        calls: Seq::empty(),
        current: Activation { lambda: None, pc: 0, env: None },
    }
}

/// The code that an activation of `lambda` runs.
pub open spec fn body_of(code: Bytecode, lambda: Option<usize>) -> Option<Seq<Instr>> {
    match lambda {
        None => Some(code.main@),
        Some(i) => if i < code.lambdas@.len() {
            Some(code.lambdas@[i as int].body@)
        } else {
            None
        },
    }
}

/// The value in slot `index` of the frame `depth` parents out from `env`.
pub open spec fn lookup_var(
    frames: Seq<(Option<usize>, Seq<Value>)>,
    env: Option<usize>,
    depth: nat,
    index: nat,
) -> Option<Value>
    decreases depth,
{
    match env {
        None => None,
        Some(f) => if f >= frames.len() {
            None
        } else if depth == 0 {
            if index < frames[f as int].1.len() {
                Some(frames[f as int].1[index as int])
            } else {
                None
            }
        } else {
            lookup_var(frames, frames[f as int].0, (depth - 1) as nat, index)
        },
    }
}

pub open spec fn with_stack(m: MachineModel, stack: Seq<Value>, current: Activation) -> MachineModel {
    MachineModel { frames: m.frames, stack, calls: m.calls, current }
}

pub open spec fn next_instruction(a: Activation) -> Activation {
    Activation { lambda: a.lambda, pc: (a.pc + 1) as usize, env: a.env }
}

/// One step of `Call(n)`: the callee lies below its `n` arguments.
pub open spec fn call_step(code: Bytecode, m: MachineModel, n: usize) -> (Step, MachineModel) {
    let len = m.stack.len();
    if len <= n {
        (Step::Fail(RuntimeError::BadCode), m)
    } else {
        let at = len - n;
        let args = m.stack.subrange(at, len as int);
        let st = m.stack.take(at - 1);
        let next = next_instruction(m.current);
        match m.stack[at - 1] {
            Value::Primitive(p) => match primitive_result(p, args) {
                Ok(v) => (Step::Continue, with_stack(m, st.push(Value::Number(v)), next)),
                Err(e) => (Step::Fail(e), m),
            },
            Value::Closure { lambda, env } => if lambda >= code.lambdas@.len() {
                (Step::Fail(RuntimeError::BadCode), m)
            } else {
                let l = code.lambdas@[lambda as int];
                match bound_slots(l.n_formals, l.variadic, args) {
                    Ok(slots) => (
                        Step::Continue,
                        MachineModel {
                            frames: m.frames.push((env, slots)),
                            stack: st,
                            calls: m.calls.push(next),
                            current: Activation {
                                lambda: Some(lambda),
                                pc: 0,
                                env: Some(m.frames.len() as usize),
                            },
                        },
                    ),
                    Err(e) => (Step::Fail(e), m),
                }
            },
            _ => (Step::Fail(RuntimeError::NotCallable), m),
        }
    }
}

/// One step of the machine running `code`: what it leads to and, where it
/// continues, the next state.
pub open spec fn machine_step(code: Bytecode, m: MachineModel) -> (Step, MachineModel) {
    match body_of(code, m.current.lambda) {
        None => (Step::Fail(RuntimeError::BadCode), m),
        Some(body) => if m.current.pc >= body.len() {
            if m.stack.len() == 0 {
                (Step::Fail(RuntimeError::BadCode), m)
            } else if m.calls.len() == 0 {
                (Step::Done(m.stack.last()), m)
            } else {
                (
                    Step::Continue,
                    MachineModel {
                        frames: m.frames,
                        stack: m.stack.drop_last().push(m.stack.last()),
                        calls: m.calls.drop_last(),
                        current: m.calls.last(),
                    },
                )
            }
        } else {
            let next = next_instruction(m.current);
            match body[m.current.pc as int] {
                Instr::Call(n) => call_step(code, m, n),
                Instr::PushConstant(c) => (
                    Step::Continue,
                    with_stack(m, m.stack.push(const_value(c)), next),
                ),
                Instr::PushVariable { depth, index } => match lookup_var(
                    m.frames,
                    m.current.env,
                    depth as nat,
                    index as nat,
                ) {
                    Some(v) => (Step::Continue, with_stack(m, m.stack.push(v), next)),
                    None => (Step::Fail(RuntimeError::UnboundSlot), m),
                },
                Instr::PushPrimitive(p) => (
                    Step::Continue,
                    with_stack(m, m.stack.push(Value::Primitive(p)), next),
                ),
                Instr::MakeClosure(i) => (
                    Step::Continue,
                    with_stack(
                        m,
                        m.stack.push(Value::Closure { lambda: i, env: m.current.env }),
                        next,
                    ),
                ),
                Instr::Pop => if m.stack.len() == 0 {
                    (Step::Fail(RuntimeError::BadCode), m)
                } else {
                    (Step::Continue, with_stack(m, m.stack.drop_last(), next))
                },
            }
        },
    }
}

/// What running `code` from state `m` for at most `fuel` steps gives.
pub open spec fn run_machine(code: Bytecode, m: MachineModel, fuel: nat) -> Result<
    Value,
    RuntimeError,
>
    decreases fuel,
{
    if fuel == 0 {
        Err(RuntimeError::StepLimit)
    } else {
        match machine_step(code, m) {
            (Step::Continue, next) => run_machine(code, next, (fuel - 1) as nat),
            (Step::Done(v), _) => Ok(v),
            (Step::Fail(e), _) => Err(e),
        }
    }
}

/// Calling a closure with a number of arguments other than its formals is a
/// reported failure: the step fails with an arity mismatch.
pub proof fn lemma_arity_mismatch_fails(code: Bytecode, m: MachineModel, n: usize, lambda: usize, env: Option<usize>)
    requires
        body_of(code, m.current.lambda) is Some,
        m.current.pc < body_of(code, m.current.lambda)->Some_0.len(),
        body_of(code, m.current.lambda)->Some_0[m.current.pc as int] == Instr::Call(n),
        m.stack.len() > n,
        m.stack[m.stack.len() - n - 1] == (Value::Closure { lambda, env }),
        lambda < code.lambdas@.len(),
        !code.lambdas@[lambda as int].variadic,
        code.lambdas@[lambda as int].n_formals != n,
    ensures
        machine_step(code, m).0 == Step::Fail(
            RuntimeError::ArityMismatch { expected: code.lambdas@[lambda as int].n_formals, given: n },
        ),
{
    let args = m.stack.subrange(m.stack.len() - n, m.stack.len() as int);
    assert(args.len() == n);
}

/// A closure runs in a new frame whose parent is the frame chain the closure
/// captured when it was made, whatever frame the caller runs in; a closure
/// made by `MakeClosure` captures the current frame.
pub proof fn lemma_closures_scope_lexically(code: Bytecode, m: MachineModel, n: usize, lambda: usize, env: Option<usize>)
    requires
        body_of(code, m.current.lambda) is Some,
        m.current.pc < body_of(code, m.current.lambda)->Some_0.len(),
    ensures
        body_of(code, m.current.lambda)->Some_0[m.current.pc as int] == Instr::MakeClosure(lambda)
            ==> machine_step(code, m).0 == Step::Continue && machine_step(code, m).1.stack.last()
            == (Value::Closure { lambda, env: m.current.env }),
        body_of(code, m.current.lambda)->Some_0[m.current.pc as int] == Instr::Call(n)
            && m.stack.len() > n && m.stack[m.stack.len() - n - 1] == (Value::Closure {
            lambda,
            env,
        }) && machine_step(code, m).0 == Step::Continue ==> {
            let next = machine_step(code, m).1;
            &&& next.current.env == Some(m.frames.len() as usize)
            &&& next.frames.len() == m.frames.len() + 1
            &&& next.frames[m.frames.len() as int].0 == env
            &&& next.current.lambda == Some(lambda)
            &&& next.current.pc == 0
        },
{
}

/// A stack machine that runs compiled code. Frames live in an arena and are
/// referred to by index, so closures made in one scope share its frame.
pub struct Runtime {
    code: Bytecode,
    frames: Vec<Frame>,
    stack: Vec<Value>,
    calls: Vec<Activation>,
    current: Activation,
}

impl Runtime {
    /// The program being run.
    pub closed spec fn program(&self) -> Bytecode {
        self.code
    }

    /// The state of the machine.
    pub closed spec fn model(&self) -> MachineModel {
        MachineModel {
            frames: self.frames@.map_values(|f: Frame| (f.parent, f.slots@)),
            stack: self.stack@,
            calls: self.calls@,
            current: self.current,
        }
    }

    /// A machine about to run the top level of `code`.
    pub fn new(code: Bytecode) -> (r: Runtime)
        ensures
            r.program() == code,
            r.model() == initial_machine(),
    {
        let r = Runtime {
            code,
            frames: Vec::new(),
            stack: Vec::new(),
            calls: Vec::new(),
            current: Activation { lambda: None, pc: 0, env: None },
        };
        assert(r.model().frames =~= Seq::<(Option<usize>, Seq<Value>)>::empty());
        assert(r.model().stack =~= Seq::<Value>::empty());
        assert(r.model().calls =~= Seq::<Activation>::empty());
        r
    }

    fn body_len(&self) -> (r: Option<usize>)
        ensures
            match body_of(self.code, self.current.lambda) {
                Some(b) => r is Some && r->Some_0 as nat == b.len(),
                None => r is None,
            },
    {
        match self.current.lambda {
            None => Some(self.code.main.len()),
            Some(i) => if i < self.code.lambdas.len() {
                Some(self.code.lambdas[i].body.len())
            } else {
                None
            },
        }
    }

    fn instruction(&self) -> (r: Instr)
        requires
            body_of(self.code, self.current.lambda) is Some,
            self.current.pc < body_of(self.code, self.current.lambda)->Some_0.len(),
        ensures
            r == body_of(self.code, self.current.lambda)->Some_0[self.current.pc as int],
    {
        match self.current.lambda {
            None => self.code.main[self.current.pc],
            Some(i) => self.code.lambdas[i].body[self.current.pc],
        }
    }

    fn read_variable(&self, depth: usize, index: usize) -> (r: Option<Value>)
        ensures
            r == lookup_var(self.model().frames, self.current.env, depth as nat, index as nat),
    {
        let ghost frames = self.model().frames;
        let mut e = self.current.env;
        let mut d: usize = depth;
        while d > 0
            invariant
                frames == self.model().frames,
                lookup_var(frames, self.current.env, depth as nat, index as nat) == lookup_var(
                    frames,
                    e,
                    d as nat,
                    index as nat,
                ),
            decreases d,
        {
            match e {
                Some(f) => if f < self.frames.len() {
                    e = self.frames[f].parent;
                } else {
                    return None;
                },
                None => {
                    return None;
                },
            }
            d = d - 1;
        }
        match e {
            Some(f) => if f < self.frames.len() && index < self.frames[f].slots.len() {
                Some(copy_value(&self.frames[f].slots[index]))
            } else {
                None
            },
            None => None,
        }
    }

    fn call(&mut self, n: usize) -> (r: Step)
        requires
            old(self).current.pc < usize::MAX,
        ensures
            final(self).program() == old(self).program(),
            r == call_step(old(self).program(), old(self).model(), n).0,
            r is Continue ==> final(self).model() == call_step(
                old(self).program(),
                old(self).model(),
                n,
            ).1,
    {
        let ghost m = self.model();
        if self.stack.len() <= n {
            return Step::Fail(RuntimeError::BadCode);
        }
        let at = self.stack.len() - n;
        let args = self.stack.split_off(at);
        let callee = self.stack.pop().unwrap();
        assert(callee == m.stack[at - 1]);
        assert(self.stack@ =~= m.stack.take(at - 1));
        let next = Activation {
            lambda: self.current.lambda,
            pc: self.current.pc + 1,
            env: self.current.env,
        };
        match callee {
            Value::Primitive(p) => match apply_primitive(p, &args) {
                Ok(v) => {
                    self.stack.push(v);
                    self.current = next;
                    Step::Continue
                },
                Err(e) => Step::Fail(e),
            },
            Value::Closure { lambda, env } => {
                if lambda >= self.code.lambdas.len() {
                    return Step::Fail(RuntimeError::BadCode);
                }
                let n_formals = self.code.lambdas[lambda].n_formals;
                let variadic = self.code.lambdas[lambda].variadic;
                match bind_arguments(n_formals, variadic, args) {
                    Ok(slots) => {
                        let ghost fs = slots@;
                        self.frames.push(Frame { parent: env, slots });
                        assert(self.model().frames =~= m.frames.push((env, fs)));
                        self.calls.push(next);
                        self.current = Activation {
                            lambda: Some(lambda),
                            pc: 0,
                            env: Some(self.frames.len() - 1),
                        };
                        Step::Continue
                    },
                    Err(e) => Step::Fail(e),
                }
            },
            _ => Step::Fail(RuntimeError::NotCallable),
        }
    }

    fn step(&mut self) -> (r: Step)
        ensures
            final(self).program() == old(self).program(),
            r == machine_step(old(self).program(), old(self).model()).0,
            r is Continue ==> final(self).model() == machine_step(
                old(self).program(),
                old(self).model(),
            ).1,
    {
        let ghost m = self.model();
        let len = match self.body_len() {
            Some(l) => l,
            None => {
                return Step::Fail(RuntimeError::BadCode);
            },
        };
        if self.current.pc >= len {
            let result = match self.stack.pop() {
                Some(v) => v,
                None => {
                    return Step::Fail(RuntimeError::BadCode);
                },
            };
            return match self.calls.pop() {
                None => Step::Done(result),
                Some(a) => {
                    self.current = a;
                    self.stack.push(result);
                    assert(self.model().stack =~= m.stack.drop_last().push(m.stack.last()));
                    Step::Continue
                },
            };
        }
        let next = Activation {
            lambda: self.current.lambda,
            pc: self.current.pc + 1,
            env: self.current.env,
        };
        match self.instruction() {
            Instr::Call(n) => {
                return self.call(n);
            },
            Instr::PushConstant(c) => {
                let v = match c {
                    Const::Boolean(b) => Value::Boolean(b),
                    Const::Character(i) => Value::Character(i),
                    Const::Number(x) => Value::Number(x),
                    Const::EmptyList => Value::EmptyList,
                };
                self.stack.push(v);
            },
            Instr::PushVariable { depth, index } => match self.read_variable(depth, index) {
                Some(v) => {
                    self.stack.push(v);
                },
                None => {
                    return Step::Fail(RuntimeError::UnboundSlot);
                },
            },
            Instr::PushPrimitive(p) => {
                self.stack.push(Value::Primitive(p));
            },
            Instr::MakeClosure(i) => {
                self.stack.push(Value::Closure { lambda: i, env: self.current.env });
            },
            Instr::Pop => {
                if self.stack.pop().is_none() {
                    return Step::Fail(RuntimeError::BadCode);
                }
            },
        }
        self.current = next;
        Step::Continue
    }

    /// Runs the program for at most `max_steps` steps and returns the value of
    /// the top level: exactly what the machine model gives.
    pub fn run(&mut self, max_steps: u64) -> (r: Result<Value, RuntimeError>)
        ensures
            final(self).program() == old(self).program(),
            r == run_machine(old(self).program(), old(self).model(), max_steps as nat),
    {
        let ghost code = self.program();
        let ghost goal = run_machine(code, self.model(), max_steps as nat);
        let mut steps: u64 = 0;
        let mut outcome: Option<Result<Value, RuntimeError>> = None;
        while steps < max_steps && outcome.is_none()
            invariant
                steps <= max_steps,
                self.program() == code,
                outcome is None ==> goal == run_machine(
                    code,
                    self.model(),
                    (max_steps - steps) as nat,
                ),
                outcome is Some ==> goal == outcome->Some_0,
            decreases max_steps - steps,
        {
            match self.step() {
                Step::Continue => {},
                Step::Done(v) => {
                    outcome = Some(Ok(v));
                },
                Step::Fail(e) => {
                    outcome = Some(Err(e));
                },
            }
            steps = steps + 1;
        }
        match outcome {
            Some(r) => r,
            None => Err(RuntimeError::StepLimit),
        }
    }
}

} // verus!
