use vstd::prelude::*;

use crate::text::str_eq;

verus! {

/// A named identifier, used both as predicate name and as variable name.
pub type Ident = String;

/// Objects that can be passed as arguments to predicates. Anonymous variables
/// keep their identifying name: two wildcards with different names are
/// distinct values, even though both match anything during matching.
#[derive(Debug)]
pub enum Var {
    /// A concrete bound symbol.
    Fixed(Ident),
    /// A named wildcard, substitutable after a match captured its position.
    Anonymous(Ident),
}

/// The value of a `Var` at the specification level.
pub enum VarV {
    Fixed(Seq<char>),
    Anonymous(Seq<char>),
}

impl View for Var {
    type V = VarV;

    open spec fn view(&self) -> VarV {
        match self {
            Var::Fixed(i) => VarV::Fixed(i@),
            Var::Anonymous(i) => VarV::Anonymous(i@),
        }
    }
}

impl Clone for Var {
    fn clone(&self) -> (r: Self)
        ensures
            r@ == self@,
    {
        match self {
            Var::Fixed(i) => Var::Fixed(i.clone()),
            Var::Anonymous(i) => Var::Anonymous(i.clone()),
        }
    }
}

impl PartialEq for Var {
    fn eq(&self, other: &Self) -> (r: bool) {
        match (self, other) {
            (Var::Fixed(a), Var::Fixed(b)) => str_eq(a.as_str(), b.as_str()),
            (Var::Anonymous(a), Var::Anonymous(b)) => str_eq(a.as_str(), b.as_str()),
            _ => false,
        }
    }
}

impl vstd::std_specs::cmp::PartialEqSpecImpl for Var {
    open spec fn obeys_eq_spec() -> bool {
        true
    }

    open spec fn eq_spec(&self, other: &Self) -> bool {
        self@ == other@
    }
}

/// The values of a sequence of variables.
pub open spec fn vars_view(args: Seq<Var>) -> Seq<VarV> {
    Seq::new(args.len(), |i: int| args[i]@)
}

/// `vars_view` is the pointwise view of its argument.
pub proof fn lemma_vars_view_index(args: Seq<Var>, j: int)
    requires
        0 <= j < args.len(),
    ensures
        vars_view(args)[j] == args[j]@,
{
}

/// A named relation applied to an ordered list of variable arguments.
/// Invariant: the name is never empty.
#[derive(Debug)]
pub struct Predicate {
    name: Ident,
    args: Vec<Var>,
}

/// The value of a `Predicate` at the specification level.
pub struct PredicateV {
    pub name: Seq<char>,
    pub args: Seq<VarV>,
}

impl View for Predicate {
    type V = PredicateV;

    closed spec fn view(&self) -> PredicateV {
        PredicateV { name: self.name@, args: vars_view(self.args@) }
    }
}

/// Pointwise substitution at the specification level: every argument equal to
/// `target` becomes `replacement`; all others stay.
pub open spec fn replaced(args: Seq<VarV>, target: VarV, replacement: VarV) -> Seq<VarV> {
    Seq::new(
        args.len(),
        |i: int|
            if args[i] == target {
                replacement
            } else {
                args[i]
            },
    )
}

/// Whether `other`'s arguments are compatible with `self`'s, position by
/// position: an anonymous argument matches anything; a fixed argument must be
/// equal by value.
pub open spec fn args_compatible(a: Seq<VarV>, b: Seq<VarV>) -> bool {
    forall|i: int| 0 <= i < a.len() ==> (a[i] is Anonymous || a[i] == b[i])
}

/// The ordered list of positions at which an argument list holds an anonymous
/// variable.
pub open spec fn anon_indices(args: Seq<VarV>) -> Seq<int>
    decreases args.len(),
{
    if args.len() == 0 {
        Seq::empty()
    } else {
        anon_indices(args.drop_last()) + (if args.last() is Anonymous {
            seq![args.len() - 1]
        } else {
            Seq::<int>::empty()
        })
    }
}

/// Extending an argument list by one position appends that position to the
/// captured indices exactly when it holds an anonymous variable.
proof fn lemma_anon_indices_step(args: Seq<VarV>, i: int)
    requires
        0 <= i < args.len(),
    ensures
        anon_indices(args.take(i + 1)) == anon_indices(args.take(i)) + (if args[i] is Anonymous {
            seq![i]
        } else {
            Seq::<int>::empty()
        }),
{
    let t = args.take(i + 1);
    assert(t.drop_last() =~= args.take(i));
    assert(t.last() == args[i]);
}

/// Law: substitution is a no-op when the target does not occur. Replacing a
/// variable that stands at no argument position leaves the argument list
/// unchanged, value for value.
pub proof fn lemma_replace_absent(args: Seq<VarV>, target: VarV, replacement: VarV)
    requires
        forall|i: int| 0 <= i < args.len() ==> args[i] != target,
    ensures
        replaced(args, target, replacement) == args,
{
    assert(replaced(args, target, replacement) =~= args);
}

impl Predicate {
    /// A predicate's name is never empty.
    pub open spec fn well_formed(&self) -> bool {
        self@.name.len() > 0
    }

    /// Build a predicate from its name and arguments.
    pub fn new(name: Ident, args: Vec<Var>) -> (r: Self)
        requires
            name@.len() > 0,
        ensures
            r@ == (PredicateV { name: name@, args: vars_view(args@) }),
            r.well_formed(),
    {
        Predicate { name, args }
    }

    /// The predicate's name.
    pub fn name(&self) -> (r: &Ident)
        ensures
            r@ == self@.name,
    {
        &self.name
    }

    /// The predicate's arguments, in source order.
    pub fn args(&self) -> (r: &Vec<Var>)
        ensures
            vars_view(r@) == self@.args,
    {
        &self.args
    }

    /// Overwrite every argument position equal (by value) to `to_replace`
    /// with `replace_with`; no effect where `to_replace` does not occur, and
    /// all matching positions are replaced, not just the first.
    pub fn replace(&mut self, to_replace: &Var, replace_with: &Var)
        ensures
            final(self)@.name == old(self)@.name,
            final(self)@.args == replaced(old(self)@.args, to_replace@, replace_with@),
    {
        let n = self.args.len();
        let ghost rep = replaced(old(self)@.args, to_replace@, replace_with@);
        let mut ix: usize = 0;
        while ix < n
            invariant
                n == self.args.len(),
                ix <= n,
                old(self)@.args.len() == n,
                rep == replaced(old(self)@.args, to_replace@, replace_with@),
                self.name@ == old(self)@.name,
                forall|j: int| ix <= j < n ==> self.args@[j]@ == old(self)@.args[j],
                forall|j: int| 0 <= j < ix ==> self.args@[j]@ == rep[j],
            decreases n - ix,
        {
            let ghost prev = self.args@;
            if self.args[ix] == *to_replace {
                let val = replace_with.clone();
                self.args.set(ix, val);
            }
            proof {
                assert(rep[ix as int] == (if old(self)@.args[ix as int] == to_replace@ {
                    replace_with@
                } else {
                    old(self)@.args[ix as int]
                }));
                assert(self.args@[ix as int]@ == rep[ix as int]);
                assert(forall|j: int| 0 <= j < n && j != ix ==> self.args@[j] == prev[j]);
            }
            ix += 1;
        }
        proof {
            assert forall|j: int| 0 <= j < n implies vars_view(self.args@)[j] == rep[j] by {
                lemma_vars_view_index(self.args@, j);
            }
            assert(self@.args =~= rep);
        }
    }

    /// Value-semantics substitution: a copy of the predicate in which every
    /// argument equal to `to_replace` is overwritten by `replace_with`.
    pub fn substituted(&self, to_replace: &Var, replace_with: &Var) -> (r: Self)
        ensures
            r@.name == self@.name,
            r@.args == replaced(self@.args, to_replace@, replace_with@),
    {
        let mut r = self.clone();
        r.replace(to_replace, replace_with);
        r
    }

    /// Determine whether `other` — assumed by the caller to be fully ground —
    /// is structurally compatible with `self` when `self`'s anonymous
    /// variables are treated as wildcards. On success, the ordered list of
    /// captured argument positions: those where `self` held an anonymous
    /// variable. Fails on a name mismatch or on any fixed-argument
    /// inequality.
    pub fn match_args(&self, other: &Self) -> (r: Option<Vec<usize>>)
        requires
            self@.args.len() == other@.args.len(),
        ensures
            r is Some <==> (self@.name == other@.name && args_compatible(
                self@.args,
                other@.args,
            )),
            r matches Some(ixs) ==> ixs@.map_values(|u: usize| u as int) == anon_indices(
                self@.args,
            ),
    {
        // Predicate names must be the same
        if !str_eq(self.name.as_str(), other.name.as_str()) {
            return None;
        }
        let ghost a = vars_view(self.args@);
        let ghost b = vars_view(other.args@);
        let n = self.args.len();
        // indices of anonymous args that now take the value of other
        let mut captured: Vec<usize> = Vec::new();
        let mut ix: usize = 0;
        proof {
            assert(a.take(0) =~= Seq::<VarV>::empty());
            assert(captured@.map_values(|u: usize| u as int) =~= Seq::<int>::empty());
        }
        while ix < n
            invariant
                a == vars_view(self.args@),
                b == vars_view(other.args@),
                n == self.args.len(),
                a.len() == n,
                b.len() == n,
                ix <= n,
                forall|j: int| 0 <= j < ix ==> (a[j] is Anonymous || a[j] == b[j]),
                captured@.map_values(|u: usize| u as int) == anon_indices(a.take(ix as int)),
            decreases n - ix,
        {
            let ghost prev = captured@;
            let anon = match &self.args[ix] {
                Var::Anonymous(_) => true,
                Var::Fixed(_) => false,
            };
            if anon {
                captured.push(ix);
            } else if !(self.args[ix] == other.args[ix]) {
                proof {
                    lemma_vars_view_index(self.args@, ix as int);
                    lemma_vars_view_index(other.args@, ix as int);
                    assert(a[ix as int] != b[ix as int]);
                    assert(!(a[ix as int] is Anonymous));
                    assert(!args_compatible(a, b));
                }
                return None;
            }
            proof {
                lemma_anon_indices_step(a, ix as int);
                if anon {
                    assert(captured@.map_values(|u: usize| u as int) =~= prev.map_values(
                        |u: usize| u as int,
                    ) + seq![ix as int]);
                } else {
                    assert(anon_indices(a.take(ix as int + 1)) =~= anon_indices(
                        a.take(ix as int),
                    ));
                }
            }
            ix += 1;
        }
        proof {
            assert(a.take(n as int) =~= a);
        }
        Some(captured)
    }
}

impl Clone for Predicate {
    fn clone(&self) -> (r: Self)
        ensures
            r@ == self@,
    {
        let n = self.args.len();
        let mut args: Vec<Var> = Vec::new();
        let mut i: usize = 0;
        while i < n
            invariant
                n == self.args.len(),
                i <= n,
                args@.len() == i,
                forall|j: int| 0 <= j < i ==> args@[j]@ == self.args@[j]@,
            decreases n - i,
        {
            let v = self.args[i].clone();
            args.push(v);
            i += 1;
        }
        proof {
            assert forall|j: int| 0 <= j < n implies vars_view(args@)[j] == vars_view(
                self.args@,
            )[j] by {
                lemma_vars_view_index(args@, j);
                lemma_vars_view_index(self.args@, j);
            }
            assert(vars_view(args@) =~= vars_view(self.args@));
        }
        Predicate { name: self.name.clone(), args }
    }
}

impl PartialEq for Predicate {
    fn eq(&self, other: &Self) -> (r: bool) {
        if !str_eq(self.name.as_str(), other.name.as_str()) {
            proof {
                assert(self.name@ != other.name@);
                assert(self@.name == self.name@);
                assert(other@.name == other.name@);
                assert(self@ != other@);
            }
            return false;
        }
        if self.args.len() != other.args.len() {
            proof {
                assert(self@.args.len() != other@.args.len());
                assert(self@ != other@);
            }
            return false;
        }
        let n = self.args.len();
        let mut i: usize = 0;
        while i < n
            invariant
                n == self.args.len(),
                n == other.args.len(),
                i <= n,
                forall|j: int| 0 <= j < i ==> self.args@[j]@ == other.args@[j]@,
            decreases n - i,
        {
            if !(self.args[i] == other.args[i]) {
                proof {
                    lemma_vars_view_index(self.args@, i as int);
                    lemma_vars_view_index(other.args@, i as int);
                    assert(self@.args[i as int] != other@.args[i as int]);
                    assert(self@ != other@);
                }
                return false;
            }
            i += 1;
        }
        proof {
            assert forall|j: int| 0 <= j < n implies vars_view(self.args@)[j] == vars_view(
                other.args@,
            )[j] by {
                lemma_vars_view_index(self.args@, j);
                lemma_vars_view_index(other.args@, j);
            }
            assert(vars_view(self.args@) =~= vars_view(other.args@));
        }
        true
    }
}

impl vstd::std_specs::cmp::PartialEqSpecImpl for Predicate {
    open spec fn obeys_eq_spec() -> bool {
        true
    }

    open spec fn eq_spec(&self, other: &Self) -> bool {
        self@ == other@
    }
}

/// The grammar classifications of parse-tree nodes that the atom builder
/// reads: the atom node itself, the three kinds it may wrap, and the plain
/// identifier leaves below a predicate node.
#[derive(Clone, Copy, Debug, PartialEq, Eq, Structural)]
pub enum Rule {
    Atom,
    Predicate,
    Boolean,
    Unknown,
    Ident,
}

/// One node of the tree that the (external) grammar-driven parser produces:
/// its rule classification, its matched text, and its ordered children. The
/// atom builder depends only on this narrow shape, not on any concrete
/// parser.
#[derive(Debug)]
pub struct SyntaxNode {
    pub rule: Rule,
    pub text: String,
    pub children: Vec<SyntaxNode>,
}

/// The smallest (atomic) operand in a logical formula.
#[derive(Debug)]
pub enum Atom {
    /// A boolean value, either `true` or `false`.
    Boolean(bool),
    /// A predicate application.
    Predicate(Predicate),
    /// A bare identifier not yet resolved to a predicate or boolean; it may
    /// stand for a whole sub-formula.
    Unknown(Ident),
}

/// The value of an `Atom` at the specification level.
pub enum AtomV {
    Boolean(bool),
    Predicate(PredicateV),
    Unknown(Seq<char>),
}

impl View for Atom {
    type V = AtomV;

    open spec fn view(&self) -> AtomV {
        match self {
            Atom::Boolean(b) => AtomV::Boolean(*b),
            Atom::Predicate(p) => AtomV::Predicate(p@),
            Atom::Unknown(i) => AtomV::Unknown(i@),
        }
    }
}

impl Clone for Atom {
    fn clone(&self) -> (r: Self)
        ensures
            r@ == self@,
    {
        match self {
            Atom::Boolean(b) => Atom::Boolean(*b),
            Atom::Predicate(p) => Atom::Predicate(p.clone()),
            Atom::Unknown(i) => Atom::Unknown(i.clone()),
        }
    }
}

impl PartialEq for Atom {
    fn eq(&self, other: &Self) -> (r: bool) {
        match (self, other) {
            (Atom::Boolean(a), Atom::Boolean(b)) => *a == *b,
            (Atom::Predicate(p), Atom::Predicate(q)) => p == q,
            (Atom::Unknown(a), Atom::Unknown(b)) => str_eq(a.as_str(), b.as_str()),
            _ => false,
        }
    }
}

impl vstd::std_specs::cmp::PartialEqSpecImpl for Atom {
    open spec fn obeys_eq_spec() -> bool {
        true
    }

    open spec fn eq_spec(&self, other: &Self) -> bool {
        self@ == other@
    }
}

impl Atom {
    /// Convert one parsed syntax node, known a priori to represent an atomic
    /// formula element, into an `Atom`. The preconditions are the grammar
    /// guarantees the builder assumes; violating them upstream is a
    /// programming error in the parser, never a recoverable input error.
    pub fn from_pair(pair: &SyntaxNode) -> (r: Self)
        requires
            pair.rule == Rule::Atom,
            pair.children@.len() == 1,
            pair.children@[0].rule == Rule::Predicate || pair.children@[0].rule == Rule::Boolean
                || pair.children@[0].rule == Rule::Unknown,
            pair.children@[0].rule == Rule::Predicate ==> pair.children@[0].children@.len() >= 1
                && pair.children@[0].children@[0].text@.len() > 0,
            pair.children@[0].rule == Rule::Boolean ==> pair.children@[0].text@ == "true"@
                || pair.children@[0].text@ == "false"@,
        ensures
            ({
                let child = pair.children@[0];
                match child.rule {
                    Rule::Predicate => {
                        &&& r@ matches AtomV::Predicate(p)
                        &&& p.name == child.children@[0].text@
                        &&& p.args.len() == child.children@.len() - 1
                        &&& forall|k: int|
                            0 <= k < p.args.len() ==> p.args[k] == VarV::Fixed(
                                child.children@[k + 1].text@,
                            )
                    },
                    Rule::Boolean => r@ == AtomV::Boolean(child.text@ == "true"@),
                    _ => r@ == AtomV::Unknown(child.text@),
                }
            }),
    {
        let child = &pair.children[0];
        match child.rule {
            Rule::Predicate => {
                let name = child.children[0].text.clone();
                let m = child.children.len();
                let mut args: Vec<Var> = Vec::new();
                let mut k: usize = 1;
                while k < m
                    invariant
                        1 <= k <= m,
                        m == child.children@.len(),
                        args@.len() == k - 1,
                        forall|j: int|
                            0 <= j < args@.len() ==> args@[j]@ == VarV::Fixed(
                                child.children@[j + 1].text@,
                            ),
                    decreases m - k,
                {
                    let text = child.children[k].text.clone();
                    args.push(Var::Fixed(text));
                    k += 1;
                }
                let p = Predicate { name, args };
                proof {
                    assert forall|j: int| 0 <= j < p@.args.len() implies p@.args[j] == VarV::Fixed(
                        child.children@[j + 1].text@,
                    ) by {
                        lemma_vars_view_index(p.args@, j);
                    }
                }
                Atom::Predicate(p)
            },
            Rule::Boolean => {
                if str_eq(child.text.as_str(), "true") {
                    Atom::Boolean(true)
                } else {
                    proof {
                        reveal_strlit("true");
                        reveal_strlit("false");
                        assert(child.text@ != "true"@);
                    }
                    Atom::Boolean(false)
                }
            },
            _ => {
                let text = child.text.clone();
                Atom::Unknown(text)
            },
        }
    }
}

} // verus!
