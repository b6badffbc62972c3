//! Computations over signals, written as data.
//!
//! A derived value or a binding's projection is an [`Expr`]: a pure function
//! of the signals it reads. Because it is a tree and not a closure, the signals
//! that one evaluation reads are known exactly, and evaluating it cannot write
//! to a signal.

use vstd::prelude::*;
use vstd::string::*;
use crate::value::{Datum, Kind, Value};

verus! {

/// A pure computation over the signals of a store.
#[derive(Debug, PartialEq, Eq)]
pub enum Expr {
    /// A constant.
    Lit(Value),
    /// The current value of the signal with this id.
    Read(usize),
    /// The argument of an update function: the value the signal held before.
    Arg,
    /// The sum of two numbers, wrapping around at the bounds of `i32`.
    Add(Box<Expr>, Box<Expr>),
    /// The product of two numbers, wrapping around at the bounds of `i32`.
    Mul(Box<Expr>, Box<Expr>),
    /// The remainder of a number by a constant other than zero; its sign is
    /// that of the dividend.
    Rem(Box<Expr>, i32),
    /// Whether two values of one kind are equal.
    Equals(Box<Expr>, Box<Expr>),
    /// The second computation where the first gives `true`, else the third.
    /// Only the chosen one is evaluated.
    If(Box<Expr>, Box<Expr>, Box<Expr>),
    /// The string form of a value.
    Show(Box<Expr>),
    /// Two texts, one after the other.
    Join(Box<Expr>, Box<Expr>),
}

/// The contents of a vector of values.
pub open spec fn env_of(cells: Seq<Value>) -> Seq<Datum> {
    Seq::new(cells.len(), |i: int| cells[i]@)
}

/// The kind of each value of an environment.
pub open spec fn kinds_of(env: Seq<Datum>) -> Seq<Kind> {
    Seq::new(env.len(), |i: int| env[i].kind())
}

/// The kind of an optional argument.
pub open spec fn arg_kind(arg: Option<Datum>) -> Option<Kind> {
    match arg {
        Some(d) => Some(d.kind()),
        None => None,
    }
}

/// The content of an optional argument.
pub open spec fn arg_datum(arg: Option<&Value>) -> Option<Datum> {
    match arg {
        Some(v) => Some(v@),
        None => None,
    }
}

/// The remainder of `a` by `d`, with the sign of `a`; `d` is not zero.
pub open spec fn rem(a: int, d: int) -> int {
    let m = if d < 0 { -d } else { d };
    if a >= 0 {
        a % m
    } else {
        -((-a) % m)
    }
}

impl Datum {
    /// The number in a value; zero where it holds none.
    pub open spec fn number(self) -> i32 {
        match self {
            Datum::Int(n) => n,
            _ => 0,
        }
    }

    /// The characters of a text; none where the value is no text.
    pub open spec fn letters(self) -> Seq<char> {
        match self {
            Datum::Text(s) => s,
            _ => Seq::empty(),
        }
    }
}

impl Expr {
    /// The kind of value this computation gives, where it is well typed over
    /// signals of the given kinds; `None` where it is not. `arg` is the kind of
    /// the argument, where there is one.
    pub open spec fn kind_of(self, kinds: Seq<Kind>, arg: Option<Kind>) -> Option<Kind>
        decreases self,
    {
        match self {
            Expr::Lit(v) => Some(v@.kind()),
            Expr::Read(id) => if id < kinds.len() {
                Some(kinds[id as int])
            } else {
                None
            },
            Expr::Arg => arg,
            Expr::Add(a, b) => if a.kind_of(kinds, arg) == Some(Kind::Int) && b.kind_of(kinds, arg)
                == Some(Kind::Int) {
                Some(Kind::Int)
            } else {
                None
            },
            Expr::Mul(a, b) => if a.kind_of(kinds, arg) == Some(Kind::Int) && b.kind_of(kinds, arg)
                == Some(Kind::Int) {
                Some(Kind::Int)
            } else {
                None
            },
            Expr::Rem(a, d) => if a.kind_of(kinds, arg) == Some(Kind::Int) && d != 0 {
                Some(Kind::Int)
            } else {
                None
            },
            Expr::Equals(a, b) => if a.kind_of(kinds, arg) is Some && a.kind_of(kinds, arg)
                == b.kind_of(kinds, arg) {
                Some(Kind::Bool)
            } else {
                None
            },
            Expr::If(c, a, b) => if c.kind_of(kinds, arg) == Some(Kind::Bool) && a.kind_of(
                kinds,
                arg,
            ) is Some && a.kind_of(kinds, arg) == b.kind_of(kinds, arg) {
                a.kind_of(kinds, arg)
            } else {
                None
            },
            Expr::Show(a) => if a.kind_of(kinds, arg) is Some {
                Some(Kind::Text)
            } else {
                None
            },
            Expr::Join(a, b) => if a.kind_of(kinds, arg) == Some(Kind::Text) && b.kind_of(
                kinds,
                arg,
            ) == Some(Kind::Text) {
                Some(Kind::Text)
            } else {
                None
            },
        }
    }

    /// What this computation gives over the signal values `env`. It is meant
    /// for well-typed computations; on others the operands that have the wrong
    /// kind count as zero, the empty text or `false`.
    pub open spec fn value_of(self, env: Seq<Datum>, arg: Option<Datum>) -> Datum
        decreases self,
    {
        match self {
            Expr::Lit(v) => v@,
            Expr::Read(id) => env[id as int],
            Expr::Arg => match arg {
                Some(d) => d,
                None => Datum::Bool(false),
            },
            Expr::Add(a, b) => Datum::Int(
                a.value_of(env, arg).number().wrapping_add(b.value_of(env, arg).number()),
            ),
            Expr::Mul(a, b) => Datum::Int(
                a.value_of(env, arg).number().wrapping_mul(b.value_of(env, arg).number()),
            ),
            Expr::Rem(a, d) => Datum::Int(rem(a.value_of(env, arg).number() as int, d as int) as i32),
            Expr::Equals(a, b) => Datum::Bool(a.value_of(env, arg) == b.value_of(env, arg)),
            Expr::If(c, a, b) => if c.value_of(env, arg) == Datum::Bool(true) {
                a.value_of(env, arg)
            } else {
                b.value_of(env, arg)
            },
            Expr::Show(a) => Datum::Text(a.value_of(env, arg).text()),
            Expr::Join(a, b) => Datum::Text(
                a.value_of(env, arg).letters() + b.value_of(env, arg).letters(),
            ),
        }
    }

    /// The signals that one evaluation over `env` reads, in the order in which
    /// it reads them. Of a conditional only the condition and the chosen branch
    /// are read.
    pub open spec fn reads_of(self, env: Seq<Datum>, arg: Option<Datum>) -> Seq<usize>
        decreases self,
    {
        match self {
            Expr::Lit(_) => Seq::empty(),
            Expr::Read(id) => seq![id],
            Expr::Arg => Seq::empty(),
            Expr::Add(a, b) => a.reads_of(env, arg) + b.reads_of(env, arg),
            Expr::Mul(a, b) => a.reads_of(env, arg) + b.reads_of(env, arg),
            Expr::Rem(a, _) => a.reads_of(env, arg),
            Expr::Equals(a, b) => a.reads_of(env, arg) + b.reads_of(env, arg),
            Expr::If(c, a, b) => c.reads_of(env, arg) + (if c.value_of(env, arg) == Datum::Bool(
                true,
            ) {
                a.reads_of(env, arg)
            } else {
                b.reads_of(env, arg)
            }),
            Expr::Show(a) => a.reads_of(env, arg),
            Expr::Join(a, b) => a.reads_of(env, arg) + b.reads_of(env, arg),
        }
    }
}

/// An element occurs in a concatenation where it occurs in one of the parts.
pub proof fn lemma_concat_has(a: Seq<usize>, b: Seq<usize>, x: usize)
    ensures
        (a + b).contains(x) <==> a.contains(x) || b.contains(x),
{
    if a.contains(x) {
        let i = choose|i: int| 0 <= i < a.len() && a[i] == x;
        assert((a + b)[i] == x);
    }
    if b.contains(x) {
        let j = choose|j: int| 0 <= j < b.len() && b[j] == x;
        assert((a + b)[a.len() + j] == x);
    }
    if (a + b).contains(x) {
        let k = choose|k: int| 0 <= k < (a + b).len() && (a + b)[k] == x;
        if k < a.len() {
            assert(a[k] == x);
        } else {
            assert(b[k - a.len()] == x);
        }
    }
}

fn is_kind(k: Option<Kind>, want: Kind) -> (r: bool)
    ensures
        r == (k == Some(want)),
{
    match k {
        Some(have) => have == want,
        None => false,
    }
}

fn remainder(a: i32, d: i32) -> (r: i32)
    requires
        d != 0,
    ensures
        r == rem(a as int, d as int),
{
    let wide: i64 = d as i64;
    let m: u32 = if d < 0 {
        (-wide) as u32
    } else {
        d as u32
    };
    if a >= 0 {
        ((a as u32) % m) as i32
    } else {
        let from: i64 = a as i64;
        let r: u32 = ((-from) as u32) % m;
        -(r as i32)
    }
}

impl Value {
    /// The number in this value; zero where it holds none.
    pub fn number(&self) -> (n: i32)
        ensures
            n == self@.number(),
    {
        match self {
            Value::Int(n) => *n,
            _ => 0,
        }
    }

    /// The text in this value; the empty text where it holds none.
    pub fn letters(self) -> (s: String)
        ensures
            s@ == self@.letters(),
    {
        match self {
            Value::Text(s) => s,
            _ => String::new(),
        }
    }
}

impl Expr {
    /// A well-typed computation gives a value of the kind that `kind_of`
    /// names.
    pub proof fn lemma_kind_sound(self, env: Seq<Datum>, arg: Option<Datum>)
        requires
            self.kind_of(kinds_of(env), arg_kind(arg)) is Some,
        ensures
            Some(self.value_of(env, arg).kind()) == self.kind_of(kinds_of(env), arg_kind(arg)),
        decreases self,
    {
        match self {
            Expr::If(c, a, b) => {
                a.lemma_kind_sound(env, arg);
                b.lemma_kind_sound(env, arg);
            },
            _ => {},
        }
    }

    /// A computation that is well typed stays so, with the same kind, when
    /// signals are added.
    pub proof fn lemma_kind_grows(self, kinds: Seq<Kind>, more: Seq<Kind>, arg: Option<Kind>)
        requires
            self.kind_of(kinds, arg) is Some,
            kinds.len() <= more.len(),
            forall|i: int| 0 <= i < kinds.len() ==> more[i] == kinds[i],
        ensures
            self.kind_of(more, arg) == self.kind_of(kinds, arg),
        decreases self,
    {
        match self {
            Expr::Lit(_) => {},
            Expr::Read(_) => {},
            Expr::Arg => {},
            Expr::Add(a, b) => {
                a.lemma_kind_grows(kinds, more, arg);
                b.lemma_kind_grows(kinds, more, arg);
            },
            Expr::Mul(a, b) => {
                a.lemma_kind_grows(kinds, more, arg);
                b.lemma_kind_grows(kinds, more, arg);
            },
            Expr::Rem(a, _) => {
                a.lemma_kind_grows(kinds, more, arg);
            },
            Expr::Equals(a, b) => {
                a.lemma_kind_grows(kinds, more, arg);
                b.lemma_kind_grows(kinds, more, arg);
            },
            Expr::If(c, a, b) => {
                c.lemma_kind_grows(kinds, more, arg);
                a.lemma_kind_grows(kinds, more, arg);
                b.lemma_kind_grows(kinds, more, arg);
            },
            Expr::Show(a) => {
                a.lemma_kind_grows(kinds, more, arg);
            },
            Expr::Join(a, b) => {
                a.lemma_kind_grows(kinds, more, arg);
                b.lemma_kind_grows(kinds, more, arg);
            },
        }
    }

    /// A well-typed computation reads only signals that exist.
    pub proof fn lemma_reads_exist(self, env: Seq<Datum>, arg: Option<Datum>, id: usize)
        requires
            self.kind_of(kinds_of(env), arg_kind(arg)) is Some,
            self.reads_of(env, arg).contains(id),
        ensures
            id < env.len(),
        decreases self,
    {
        match self {
            Expr::Lit(_) => {},
            Expr::Read(_) => {},
            Expr::Arg => {},
            Expr::Add(a, b) => {
                lemma_concat_has(a.reads_of(env, arg), b.reads_of(env, arg), id);
                if a.reads_of(env, arg).contains(id) {
                    a.lemma_reads_exist(env, arg, id);
                } else {
                    b.lemma_reads_exist(env, arg, id);
                }
            },
            Expr::Mul(a, b) => {
                lemma_concat_has(a.reads_of(env, arg), b.reads_of(env, arg), id);
                if a.reads_of(env, arg).contains(id) {
                    a.lemma_reads_exist(env, arg, id);
                } else {
                    b.lemma_reads_exist(env, arg, id);
                }
            },
            Expr::Rem(a, _) => {
                a.lemma_reads_exist(env, arg, id);
            },
            Expr::Equals(a, b) => {
                lemma_concat_has(a.reads_of(env, arg), b.reads_of(env, arg), id);
                if a.reads_of(env, arg).contains(id) {
                    a.lemma_reads_exist(env, arg, id);
                } else {
                    b.lemma_reads_exist(env, arg, id);
                }
            },
            Expr::If(c, a, b) => {
                let chosen = if c.value_of(env, arg) == Datum::Bool(true) {
                    a.reads_of(env, arg)
                } else {
                    b.reads_of(env, arg)
                };
                lemma_concat_has(c.reads_of(env, arg), chosen, id);
                if c.reads_of(env, arg).contains(id) {
                    c.lemma_reads_exist(env, arg, id);
                } else if c.value_of(env, arg) == Datum::Bool(true) {
                    a.lemma_reads_exist(env, arg, id);
                } else {
                    b.lemma_reads_exist(env, arg, id);
                }
            },
            Expr::Show(a) => {
                a.lemma_reads_exist(env, arg, id);
            },
            Expr::Join(a, b) => {
                lemma_concat_has(a.reads_of(env, arg), b.reads_of(env, arg), id);
                if a.reads_of(env, arg).contains(id) {
                    a.lemma_reads_exist(env, arg, id);
                } else {
                    b.lemma_reads_exist(env, arg, id);
                }
            },
        }
    }

    /// A computation depends on the signals it reads and on nothing else: over
    /// two environments that agree on every signal that an evaluation over the
    /// first reads, it gives the same value and reads the same signals.
    pub proof fn lemma_local(self, env: Seq<Datum>, other: Seq<Datum>, arg: Option<Datum>)
        requires
            forall|id: usize| #[trigger]
                self.reads_of(env, arg).contains(id) ==> other[id as int] == env[id as int],
        ensures
            self.value_of(other, arg) == self.value_of(env, arg),
            self.reads_of(other, arg) == self.reads_of(env, arg),
        decreases self,
    {
        let all = self.reads_of(env, arg);
        match self {
            Expr::Lit(_) => {},
            Expr::Read(id) => {
                assert(seq![id][0] == id);
                assert(self.reads_of(env, arg).contains(id));
            },
            Expr::Arg => {},
            Expr::Add(a, b) => {
                assert(all == a.reads_of(env, arg) + b.reads_of(env, arg));
                lemma_split(a.reads_of(env, arg), b.reads_of(env, arg), env, other);
                a.lemma_local(env, other, arg);
                b.lemma_local(env, other, arg);
            },
            Expr::Mul(a, b) => {
                assert(all == a.reads_of(env, arg) + b.reads_of(env, arg));
                lemma_split(a.reads_of(env, arg), b.reads_of(env, arg), env, other);
                a.lemma_local(env, other, arg);
                b.lemma_local(env, other, arg);
            },
            Expr::Rem(a, _) => {
                a.lemma_local(env, other, arg);
            },
            Expr::Equals(a, b) => {
                assert(all == a.reads_of(env, arg) + b.reads_of(env, arg));
                lemma_split(a.reads_of(env, arg), b.reads_of(env, arg), env, other);
                a.lemma_local(env, other, arg);
                b.lemma_local(env, other, arg);
            },
            Expr::If(c, a, b) => {
                if c.value_of(env, arg) == Datum::Bool(true) {
                    assert(all == c.reads_of(env, arg) + a.reads_of(env, arg));
                    lemma_split(c.reads_of(env, arg), a.reads_of(env, arg), env, other);
                    c.lemma_local(env, other, arg);
                    a.lemma_local(env, other, arg);
                } else {
                    assert(all == c.reads_of(env, arg) + b.reads_of(env, arg));
                    lemma_split(c.reads_of(env, arg), b.reads_of(env, arg), env, other);
                    c.lemma_local(env, other, arg);
                    b.lemma_local(env, other, arg);
                }
            },
            Expr::Show(a) => {
                a.lemma_local(env, other, arg);
            },
            Expr::Join(a, b) => {
                assert(all == a.reads_of(env, arg) + b.reads_of(env, arg));
                lemma_split(a.reads_of(env, arg), b.reads_of(env, arg), env, other);
                a.lemma_local(env, other, arg);
                b.lemma_local(env, other, arg);
            },
        }
    }

    /// The kind of this computation over the given cells, or `None` where it
    /// is not well typed.
    pub fn check(&self, cells: &Vec<Value>, arg: Option<Kind>) -> (k: Option<Kind>)
        ensures
            k == self.kind_of(kinds_of(env_of(cells@)), arg),
        decreases self,
    {
        match self {
            Expr::Lit(v) => Some(v.kind()),
            Expr::Read(id) => if *id < cells.len() {
                Some(cells[*id].kind())
            } else {
                None
            },
            Expr::Arg => arg,
            Expr::Add(a, b) => {
                let ka = a.check(cells, arg);
                let kb = b.check(cells, arg);
                if is_kind(ka, Kind::Int) && is_kind(kb, Kind::Int) {
                    Some(Kind::Int)
                } else {
                    None
                }
            },
            Expr::Mul(a, b) => {
                let ka = a.check(cells, arg);
                let kb = b.check(cells, arg);
                if is_kind(ka, Kind::Int) && is_kind(kb, Kind::Int) {
                    Some(Kind::Int)
                } else {
                    None
                }
            },
            Expr::Rem(a, d) => {
                let ka = a.check(cells, arg);
                if is_kind(ka, Kind::Int) && *d != 0 {
                    Some(Kind::Int)
                } else {
                    None
                }
            },
            Expr::Equals(a, b) => {
                let ka = a.check(cells, arg);
                let kb = b.check(cells, arg);
                match ka {
                    Some(k) => if is_kind(kb, k) {
                        Some(Kind::Bool)
                    } else {
                        None
                    },
                    None => None,
                }
            },
            Expr::If(c, a, b) => {
                let kc = c.check(cells, arg);
                let ka = a.check(cells, arg);
                let kb = b.check(cells, arg);
                match ka {
                    Some(k) => if is_kind(kc, Kind::Bool) && is_kind(kb, k) {
                        Some(k)
                    } else {
                        None
                    },
                    None => None,
                }
            },
            Expr::Show(a) => {
                let ka = a.check(cells, arg);
                match ka {
                    Some(_) => Some(Kind::Text),
                    None => None,
                }
            },
            Expr::Join(a, b) => {
                let ka = a.check(cells, arg);
                let kb = b.check(cells, arg);
                if is_kind(ka, Kind::Text) && is_kind(kb, Kind::Text) {
                    Some(Kind::Text)
                } else {
                    None
                }
            },
        }
    }

    /// Evaluates this computation over the given cells and appends to `reads`
    /// the id of each signal read, in the order read.
    pub fn eval(&self, cells: &Vec<Value>, arg: Option<&Value>, reads: &mut Vec<usize>) -> (out:
        Value)
        requires
            self.kind_of(kinds_of(env_of(cells@)), arg_kind(arg_datum(arg))) is Some,
        ensures
            out@ == self.value_of(env_of(cells@), arg_datum(arg)),
            Some(out@.kind()) == self.kind_of(kinds_of(env_of(cells@)), arg_kind(arg_datum(arg))),
            final(reads)@ == old(reads)@ + self.reads_of(env_of(cells@), arg_datum(arg)),
        decreases self,
    {
        let ghost env = env_of(cells@);
        proof {
            self.lemma_kind_sound(env, arg_datum(arg));
        }
        let ghost before = reads@;
        match self {
            Expr::Lit(v) => {
                assert(before + Seq::<usize>::empty() =~= before);
                v.duplicate()
            },
            Expr::Read(id) => {
                reads.push(*id);
                assert(before.push(*id) =~= before + seq![*id]);
                cells[*id].duplicate()
            },
            Expr::Arg => {
                assert(before + Seq::<usize>::empty() =~= before);
                match arg {
                    Some(v) => v.duplicate(),
                    None => Value::Bool(false),
                }
            },
            Expr::Add(a, b) => {
                let x = a.eval(cells, arg, reads);
                let y = b.eval(cells, arg, reads);
                assert(reads@ =~= before + self.reads_of(env, arg_datum(arg)));
                Value::Int(x.number().wrapping_add(y.number()))
            },
            Expr::Mul(a, b) => {
                let x = a.eval(cells, arg, reads);
                let y = b.eval(cells, arg, reads);
                assert(reads@ =~= before + self.reads_of(env, arg_datum(arg)));
                Value::Int(x.number().wrapping_mul(y.number()))
            },
            Expr::Rem(a, d) => {
                let x = a.eval(cells, arg, reads);
                Value::Int(remainder(x.number(), *d))
            },
            Expr::Equals(a, b) => {
                let x = a.eval(cells, arg, reads);
                let y = b.eval(cells, arg, reads);
                assert(reads@ =~= before + self.reads_of(env, arg_datum(arg)));
                Value::Bool(x.same(&y))
            },
            Expr::If(c, a, b) => {
                let chosen = c.eval(cells, arg, reads);
                let out = if chosen.same(&Value::Bool(true)) {
                    a.eval(cells, arg, reads)
                } else {
                    b.eval(cells, arg, reads)
                };
                assert(reads@ =~= before + self.reads_of(env, arg_datum(arg)));
                out
            },
            Expr::Show(a) => {
                let x = a.eval(cells, arg, reads);
                Value::Text(x.text())
            },
            Expr::Join(a, b) => {
                let x = a.eval(cells, arg, reads);
                let y = b.eval(cells, arg, reads);
                assert(reads@ =~= before + self.reads_of(env, arg_datum(arg)));
                let mut s = x.letters();
                let t = y.letters();
                s.append(t.as_str());
                Value::Text(s)
            },
        }
    }

    /// A copy of this computation.
    pub fn duplicate(&self) -> (r: Expr)
        ensures
            r == *self,
        decreases self,
    {
        match self {
            Expr::Lit(v) => Expr::Lit(v.duplicate()),
            Expr::Read(id) => Expr::Read(*id),
            Expr::Arg => Expr::Arg,
            Expr::Add(a, b) => Expr::Add(Box::new(a.duplicate()), Box::new(b.duplicate())),
            Expr::Mul(a, b) => Expr::Mul(Box::new(a.duplicate()), Box::new(b.duplicate())),
            Expr::Rem(a, d) => Expr::Rem(Box::new(a.duplicate()), *d),
            Expr::Equals(a, b) => Expr::Equals(Box::new(a.duplicate()), Box::new(b.duplicate())),
            Expr::If(c, a, b) => Expr::If(
                Box::new(c.duplicate()),
                Box::new(a.duplicate()),
                Box::new(b.duplicate()),
            ),
            Expr::Show(a) => Expr::Show(Box::new(a.duplicate())),
            Expr::Join(a, b) => Expr::Join(Box::new(a.duplicate()), Box::new(b.duplicate())),
        }
    }
}

/// What holds of every element of a concatenation holds of every element of
/// each part.
proof fn lemma_split(a: Seq<usize>, b: Seq<usize>, env: Seq<Datum>, other: Seq<Datum>)
    requires
        forall|id: usize| #[trigger] (a + b).contains(id) ==> other[id as int] == env[id as int],
    ensures
        forall|id: usize| #[trigger] a.contains(id) ==> other[id as int] == env[id as int],
        forall|id: usize| #[trigger] b.contains(id) ==> other[id as int] == env[id as int],
{
    assert forall|id: usize| #[trigger] a.contains(id) implies other[id as int] == env[id as int] by {
        lemma_concat_has(a, b, id);
    }
    assert forall|id: usize| #[trigger] b.contains(id) implies other[id as int] == env[id as int] by {
        lemma_concat_has(a, b, id);
    }
}

} // verus!
