//! The flat environment of named values that evaluation consults.
use crate::error::{Fault, RispError};
use crate::val::{val_bool, val_builtin, Builtin, Term, Val};
use vstd::prelude::*;

verus! {

/// The bindings that a fresh environment holds: the builtins under their
/// names and aliases, and the constants `true`, `false` and `nil`.
pub open spec fn default_bindings() -> Map<Seq<char>, Term> {
    map![
        "add"@ => Term::Fun("add"@, Builtin::Add),
        "+"@ => Term::Fun("+"@, Builtin::Add),
        "sub"@ => Term::Fun("sub"@, Builtin::Sub),
        "-"@ => Term::Fun("-"@, Builtin::Sub),
        "mul"@ => Term::Fun("mul"@, Builtin::Mul),
        "*"@ => Term::Fun("*"@, Builtin::Mul),
        "div"@ => Term::Fun("div"@, Builtin::Div),
        "/"@ => Term::Fun("/"@, Builtin::Div),
        "rem"@ => Term::Fun("rem"@, Builtin::Rem),
        "%"@ => Term::Fun("%"@, Builtin::Rem),
        "min"@ => Term::Fun("min"@, Builtin::Min),
        "max"@ => Term::Fun("max"@, Builtin::Max),
        "gt"@ => Term::Fun("gt"@, Builtin::Gt),
        ">"@ => Term::Fun(">"@, Builtin::Gt),
        "lt"@ => Term::Fun("lt"@, Builtin::Lt),
        "<"@ => Term::Fun("<"@, Builtin::Lt),
        "ge"@ => Term::Fun("ge"@, Builtin::Ge),
        ">="@ => Term::Fun(">="@, Builtin::Ge),
        "le"@ => Term::Fun("le"@, Builtin::Le),
        "<="@ => Term::Fun("<="@, Builtin::Le),
        "eq"@ => Term::Fun("eq"@, Builtin::Eq),
        "=="@ => Term::Fun("=="@, Builtin::Eq),
        "ne"@ => Term::Fun("ne"@, Builtin::Ne),
        "!="@ => Term::Fun("!="@, Builtin::Ne),
        "if"@ => Term::Fun("if"@, Builtin::If),
        "now"@ => Term::Fun("now"@, Builtin::Now),
        "and"@ => Term::Fun("and"@, Builtin::And),
        "or"@ => Term::Fun("or"@, Builtin::Or),
        "not"@ => Term::Fun("not"@, Builtin::Not),
        "true"@ => Term::Bool(true),
        "false"@ => Term::Bool(false),
        "nil"@ => Term::Bool(false)
    ]
}

/// The bindings of a list of pairs; a later pair wins over an earlier one
/// with the same name.
pub open spec fn bindings_of(s: Seq<(String, Val)>) -> Map<Seq<char>, Term>
    decreases s.len(),
{
    if s.len() == 0 {
        Map::empty()
    } else {
        let last = s[s.len() - 1];
        bindings_of(s.subrange(0, s.len() - 1)).insert(last.0@, last.1@)
    }
}

/// A mapping from names to values.
pub struct Env {
    data: Vec<(String, Val)>,
    model: Ghost<Map<Seq<char>, Term>>,
}

impl View for Env {
    type V = Map<Seq<char>, Term>;

    closed spec fn view(&self) -> Map<Seq<char>, Term> {
        self.model@
    }
}

impl Env {
    /// Each name is held once, and the model gives each stored value.
    pub closed spec fn wf(&self) -> bool {
        &&& forall|i: int, j: int|
            0 <= i < j < self.data@.len() ==> #[trigger] self.data@[i].0@
                != #[trigger] self.data@[j].0@
        &&& forall|i: int|
            0 <= i < self.data@.len() ==> #[trigger] self.model@.contains_key(self.data@[i].0@)
                && self.model@[self.data@[i].0@] == self.data@[i].1@
        &&& forall|k: Seq<char>|
            #[trigger] self.model@.contains_key(k) ==> exists|i: int|
                0 <= i < self.data@.len() && #[trigger] self.data@[i].0@ == k
    }

    /// An environment that holds the given bindings, then the builtins and
    /// constants, which replace a given binding of the same name.
    pub fn new(data: Option<Vec<(String, Val)>>) -> (r: Env)
        ensures
            r.wf(),
            r@ == bindings_of(
                match data {
                    Some(d) => d@,
                    None => Seq::empty(),
                },
            ).union_prefer_right(default_bindings()),
    {
        let mut ret = Env { data: Vec::new(), model: Ghost(Map::empty()) };
        let ghost given: Seq<(String, Val)> = match data {
            Some(ref d) => d@,
            None => Seq::empty(),
        };
        match data {
            Some(d) => {
                let mut i: usize = 0;
                while i < d.len()
                    invariant
                        ret.wf(),
                        given == d@,
                        i <= d@.len(),
                        ret@ == bindings_of(d@.subrange(0, i as int)),
                    decreases d@.len() - i,
                {
                    let (name, v) = (d[i].0.clone(), d[i].1.duplicate());
                    ret.put(name, v);
                    proof {
                        assert(d@.subrange(0, i + 1).subrange(0, i as int) =~= d@.subrange(
                            0,
                            i as int,
                        ));
                    }
                    i = i + 1;
                }
                assert(d@.subrange(0, d@.len() as int) =~= d@);
            },
            None => {},
        }
        let ghost start = ret@;
        ret.add_builtin("add", Builtin::Add);
        ret.add_builtin("+", Builtin::Add);
        ret.add_builtin("sub", Builtin::Sub);
        ret.add_builtin("-", Builtin::Sub);
        ret.add_builtin("mul", Builtin::Mul);
        ret.add_builtin("*", Builtin::Mul);
        ret.add_builtin("div", Builtin::Div);
        ret.add_builtin("/", Builtin::Div);
        ret.add_builtin("rem", Builtin::Rem);
        ret.add_builtin("%", Builtin::Rem);
        ret.add_builtin("min", Builtin::Min);
        ret.add_builtin("max", Builtin::Max);
        ret.add_builtin("gt", Builtin::Gt);
        ret.add_builtin(">", Builtin::Gt);
        ret.add_builtin("lt", Builtin::Lt);
        ret.add_builtin("<", Builtin::Lt);
        ret.add_builtin("ge", Builtin::Ge);
        ret.add_builtin(">=", Builtin::Ge);
        ret.add_builtin("le", Builtin::Le);
        ret.add_builtin("<=", Builtin::Le);
        ret.add_builtin("eq", Builtin::Eq);
        ret.add_builtin("==", Builtin::Eq);
        ret.add_builtin("ne", Builtin::Ne);
        ret.add_builtin("!=", Builtin::Ne);
        ret.add_builtin("if", Builtin::If);
        ret.add_builtin("now", Builtin::Now);
        ret.add_builtin("and", Builtin::And);
        ret.add_builtin("or", Builtin::Or);
        ret.add_builtin("not", Builtin::Not);
        ret.add_constant("true", val_bool(true));
        ret.add_constant("false", val_bool(false));
        ret.add_constant("nil", val_bool(false));
        assert(ret@ =~= start.union_prefer_right(default_bindings()));
        ret
    }

    fn add_builtin(&mut self, name: &str, op: Builtin)
        requires
            old(self).wf(),
        ensures
            final(self).wf(),
            final(self)@ == old(self)@.insert(name@, Term::Fun(name@, op)),
    {
        self.put(name.to_string(), val_builtin(op, name))
    }

    fn add_constant(&mut self, name: &str, v: Val)
        requires
            old(self).wf(),
        ensures
            final(self).wf(),
            final(self)@ == old(self)@.insert(name@, v@),
    {
        self.put(name.to_string(), v)
    }

    /// The position of `name` in the bindings, if it is bound.
    fn find(&self, name: &String) -> (r: Option<usize>)
        requires
            self.wf(),
        ensures
            r is Some <==> self@.contains_key(name@),
            r matches Some(i) ==> i < self.data@.len() && self.data@[i as int].0@ == name@,
    {
        let mut i: usize = 0;
        while i < self.data.len()
            invariant
                self.wf(),
                i <= self.data@.len(),
                forall|j: int| 0 <= j < i ==> self.data@[j].0@ != name@,
            decreases self.data@.len() - i,
        {
            if self.data[i].0 == *name {
                return Some(i);
            }
            i = i + 1;
        }
        None
    }

    /// Binds `name` to `v`, in place of any value it had.
    pub fn put(&mut self, name: String, v: Val)
        requires
            old(self).wf(),
        ensures
            final(self).wf(),
            final(self)@ == old(self)@.insert(name@, v@),
    {
        let ghost key = name@;
        let ghost val = v@;
        let ghost at: int;
        match self.find(&name) {
            Some(i) => {
                self.data.set(i, (name, v));
                proof {
                    at = i as int;
                }
            },
            None => {
                self.data.push((name, v));
                proof {
                    at = self.data@.len() - 1;
                }
            },
        }
        self.model = Ghost(self.model@.insert(key, val));
        assert(self.data@[at].0@ == key);
        assert forall|k: Seq<char>| #[trigger] self.model@.contains_key(k) implies exists|i: int|
            0 <= i < self.data@.len() && #[trigger] self.data@[i].0@ == k by {
            if k != key {
                let i = choose|i: int| 0 <= i < old(self).data@.len() && old(self).data@[i].0@ == k;
                assert(self.data@[i].0@ == k);
            } else {
                assert(self.data@[at].0@ == k);
            }
        }
    }

    /// The value bound to `k`.
    pub fn get(&self, k: &str) -> (r: Result<Val, RispError>)
        requires
            self.wf(),
        ensures
            self@.contains_key(k@) ==> (r matches Ok(v) && v@ == self@[k@]),
            !self@.contains_key(k@) ==> (r matches Err(e) && e@ == Fault::UnknownFunction(k@)),
    {
        let name = k.to_string();
        match self.find(&name) {
            Some(i) => Ok(self.data[i].1.duplicate()),
            None => Err(RispError::UnknownFunction(name)),
        }
    }
}

} // verus!
