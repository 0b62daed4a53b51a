//! The environment: an ordered mapping from names to variables and
//! functions.

use super::ast::{names_view, Expr, ExprView};
use crate::number::Number;
use crate::text::{
    bytes_lt, bytes_start_with, is_prefix, lemma_lex_irreflexive, lemma_lex_total,
    lemma_lex_transitive, lemma_prefix_between, lemma_prefix_not_after, lex_lt,
};
use std::rc::Rc;
use vstd::prelude::*;
use vstd::string::StringExecFns;
use vstd::string::StringSliceAdditionalSpecFns;
use vstd::utf8::encode_utf8;

verus! {

/// The functions that every environment of a session starts with.
#[derive(Debug, Clone, Copy, PartialEq, Eq, Structural)]
pub enum Builtin {
    Sum,
    Sqrt,
    Avg,
    Min,
    Max,
    Sin,
}

/// A function defined by the user: `name(arguments) = expr`.
#[derive(Debug)]
pub struct UserFn {
    pub expr: Rc<Expr>,
    pub arguments: Vec<String>,
}

/// A function.
#[derive(Debug)]
pub enum Func {
    UserFn(UserFn),
    BuiltinFn(Builtin),
}

/// What a name stands for.
#[derive(Debug)]
pub enum EnvMember {
    Var(Number),
    Fn(Func),
}

/// Whether a name stands for a variable or for a function.
#[derive(Debug, Clone, Copy, PartialEq, Eq, Structural)]
pub enum EnvMemberKind {
    Var,
    Fn,
}

/// A function as a mathematical value.
pub enum FuncView {
    UserFn { body: ExprView, parameters: Seq<Seq<char>> },
    BuiltinFn(Builtin),
}

/// A member of the environment as a mathematical value.
pub enum MemberView {
    Var(Number),
    Fn(FuncView),
}

impl View for UserFn {
    type V = FuncView;

    open spec fn view(&self) -> FuncView {
        FuncView::UserFn { body: (*self.expr)@, parameters: names_view(self.arguments@) }
    }
}

impl View for Func {
    type V = FuncView;

    open spec fn view(&self) -> FuncView {
        match *self {
            Func::UserFn(f) => f@,
            Func::BuiltinFn(b) => FuncView::BuiltinFn(b),
        }
    }
}

impl View for EnvMember {
    type V = MemberView;

    open spec fn view(&self) -> MemberView {
        match *self {
            EnvMember::Var(n) => MemberView::Var(n),
            EnvMember::Fn(f) => MemberView::Fn(f@),
        }
    }
}

impl MemberView {
    pub open spec fn kind(self) -> EnvMemberKind {
        match self {
            MemberView::Var(_) => EnvMemberKind::Var,
            MemberView::Fn(_) => EnvMemberKind::Fn,
        }
    }
}

impl EnvMember {
    pub fn to_kind(&self) -> (r: EnvMemberKind)
        ensures
            r == self@.kind(),
    {
        match self {
            EnvMember::Fn(_) => EnvMemberKind::Fn,
            EnvMember::Var(_) => EnvMemberKind::Var,
        }
    }
}

/// The bytes of a name; names are ordered by them.
pub open spec fn name_bytes(name: Seq<char>) -> Seq<u8> {
    encode_utf8(name)
}

/// Names with the same bytes are the same name.
pub proof fn lemma_name_bytes_injective(a: Seq<char>, b: Seq<char>)
    requires
        name_bytes(a) == name_bytes(b),
    ensures
        a == b,
{
    vstd::utf8::encode_utf8_decode_utf8(a);
    vstd::utf8::encode_utf8_decode_utf8(b);
}

/// The environment of a session. Variables and functions share one space of
/// names; each name stands for one member at a time.
#[derive(Debug)]
pub struct Env {
    members: Vec<(String, EnvMember)>,
}

/// The names of `members` increase strictly.
pub open spec fn strictly_sorted(members: Seq<(String, EnvMember)>) -> bool {
    forall|i: int, j: int|
        0 <= i < j < members.len() ==> lex_lt(
            #[trigger] name_bytes(members[i].0@),
            #[trigger] name_bytes(members[j].0@),
        )
}

/// `name` occurs in `members`.
pub open spec fn occurs(members: Seq<(String, EnvMember)>, name: Seq<char>) -> bool {
    exists|i: int| 0 <= i < members.len() && (#[trigger] members[i]).0@ == name
}

/// A place of `name` in `members`.
pub open spec fn place(members: Seq<(String, EnvMember)>, name: Seq<char>) -> int {
    choose|i: int| 0 <= i < members.len() && (#[trigger] members[i]).0@ == name
}

/// The mapping that `members` holds.
pub open spec fn mapping(members: Seq<(String, EnvMember)>) -> Map<Seq<char>, MemberView> {
    Map::new(
        |name: Seq<char>| occurs(members, name),
        |name: Seq<char>| members[place(members, name)].1@,
    )
}

/// In a sorted sequence each name has one place.
pub proof fn lemma_one_place(members: Seq<(String, EnvMember)>, i: int)
    requires
        strictly_sorted(members),
        0 <= i < members.len(),
    ensures
        occurs(members, members[i].0@),
        place(members, members[i].0@) == i,
        mapping(members).contains_key(members[i].0@),
        mapping(members)[members[i].0@] == members[i].1@,
{
    let name = members[i].0@;
    assert(members[i].0@ == name);
    let j = place(members, name);
    if j != i {
        lemma_lex_irreflexive(name_bytes(name), 0);
        if j < i {
            assert(lex_lt(name_bytes(members[j].0@), name_bytes(members[i].0@)));
        } else {
            assert(lex_lt(name_bytes(members[i].0@), name_bytes(members[j].0@)));
        }
    }
}

impl View for Env {
    type V = Map<Seq<char>, MemberView>;

    closed spec fn view(&self) -> Map<Seq<char>, MemberView> {
        mapping(self.members@)
    }
}

impl Env {
    /// The names of the members increase strictly, so that each name is
    /// found, and the names with a given prefix are gathered, by bisection.
    pub closed spec fn wf(&self) -> bool {
        strictly_sorted(self.members@)
    }

    /// An environment without members.
    pub fn new() -> (r: Self)
        ensures
            r.wf(),
            r@ == Map::<Seq<char>, MemberView>::empty(),
    {
        let r = Self { members: Vec::new() };
        assert(r@ =~= Map::<Seq<char>, MemberView>::empty());
        r
    }

    /// The first place whose name does not come before `q`.
    fn lower_bound(&self, q: &[u8]) -> (lb: usize)
        requires
            self.wf(),
        ensures
            lb <= self.members@.len(),
            forall|i: int|
                0 <= i < lb ==> lex_lt(#[trigger] name_bytes(self.members@[i].0@), q@),
            forall|i: int|
                lb <= i < self.members@.len() ==> !lex_lt(
                    #[trigger] name_bytes(self.members@[i].0@),
                    q@,
                ),
    {
        let mut lo: usize = 0;
        let mut hi: usize = self.members.len();
        while lo < hi
            invariant
                lo <= hi <= self.members@.len(),
                strictly_sorted(self.members@),
                forall|i: int|
                    0 <= i < lo ==> lex_lt(#[trigger] name_bytes(self.members@[i].0@), q@),
                forall|i: int|
                    hi <= i < self.members@.len() ==> !lex_lt(
                        #[trigger] name_bytes(self.members@[i].0@),
                        q@,
                    ),
            decreases hi - lo,
        {
            let mid = lo + (hi - lo) / 2;
            let key = self.members[mid].0.as_str().as_bytes();
            assert(key@ == name_bytes(self.members@[mid as int].0@));
            if bytes_lt(key, q) {
                assert forall|i: int| 0 <= i < mid + 1 implies lex_lt(
                    #[trigger] name_bytes(self.members@[i].0@),
                    q@,
                ) by {
                    if i < mid {
                        lemma_lex_transitive(
                            name_bytes(self.members@[i].0@),
                            name_bytes(self.members@[mid as int].0@),
                            q@,
                            0,
                        );
                    }
                }
                lo = mid + 1;
            } else {
                assert forall|i: int| mid <= i < self.members@.len() implies !lex_lt(
                    #[trigger] name_bytes(self.members@[i].0@),
                    q@,
                ) by {
                    if i > mid && lex_lt(name_bytes(self.members@[i].0@), q@) {
                        lemma_lex_transitive(
                            name_bytes(self.members@[mid as int].0@),
                            name_bytes(self.members@[i].0@),
                            q@,
                            0,
                        );
                    }
                }
                hi = mid;
            }
        }
        lo
    }

    /// The place of the name `q`, if it is a member.
    fn find(&self, q: &str) -> (r: Option<usize>)
        requires
            self.wf(),
        ensures
            match r {
                Some(i) => i < self.members@.len() && self.members@[i as int].0@ == q@
                    && self@.contains_key(q@) && self@[q@] == self.members@[i as int].1@,
                None => !self@.contains_key(q@),
            },
    {
        let bytes = q.as_bytes();
        let lb = self.lower_bound(bytes);
        if lb < self.members.len() {
            let key = self.members[lb].0.as_str().as_bytes();
            if !bytes_lt(bytes, key) {
                proof {
                    lemma_lex_total(key@, bytes@, 0);
                    lemma_name_bytes_injective(self.members@[lb as int].0@, q@);
                    lemma_one_place(self.members@, lb as int);
                }
                return Some(lb);
            }
        }
        proof {
            if self@.contains_key(q@) {
                let i = place(self.members@, q@);
                lemma_lex_irreflexive(name_bytes(q@), 0);
                if i > lb {
                    assert(lex_lt(
                        name_bytes(self.members@[lb as int].0@),
                        name_bytes(self.members@[i].0@),
                    ));
                }
                assert(false);
            }
        }
        None
    }

    /// Puts `member` under `name`, in place of what the name stood for.
    fn put(&mut self, name: String, member: EnvMember)
        requires
            old(self).wf(),
        ensures
            final(self).wf(),
            final(self)@ == old(self)@.insert(name@, member@),
    {
        let ghost before = self.members@;
        let ghost entry = (name, member);
        let bytes = name.as_str().as_bytes();
        let lb = self.lower_bound(bytes);
        let replace = lb < self.members.len() && !bytes_lt(
            bytes,
            self.members[lb].0.as_str().as_bytes(),
        );
        if replace {
            proof {
                lemma_lex_total(name_bytes(before[lb as int].0@), bytes@, 0);
                lemma_name_bytes_injective(before[lb as int].0@, name@);
            }
            self.members.set(lb, (name, member));
            proof {
                let after = self.members@;
                assert(after == before.update(lb as int, entry));
                assert forall|i: int, j: int| 0 <= i < j < after.len() implies lex_lt(
                    #[trigger] name_bytes(after[i].0@),
                    #[trigger] name_bytes(after[j].0@),
                ) by {
                    assert(after[i].0@ == before[i].0@);
                    assert(after[j].0@ == before[j].0@);
                    assert(lex_lt(name_bytes(before[i].0@), name_bytes(before[j].0@)));
                }
                lemma_put_replaced(before, after, lb as int, entry);
            }
        } else {
            self.members.insert(lb, (name, member));
            proof {
                let after = self.members@;
                assert(after == before.insert(lb as int, entry));
                assert forall|j: int| lb <= j < before.len() implies lex_lt(
                    bytes@,
                    #[trigger] name_bytes(before[j].0@),
                ) by {
                    lemma_lex_total(name_bytes(before[lb as int].0@), bytes@, 0);
                    if j > lb {
                        assert(lex_lt(
                            name_bytes(before[lb as int].0@),
                            name_bytes(before[j].0@),
                        ));
                        lemma_lex_transitive(
                            bytes@,
                            name_bytes(before[lb as int].0@),
                            name_bytes(before[j].0@),
                            0,
                        );
                    }
                    if name_bytes(before[lb as int].0@) == bytes@ {
                        lemma_lex_irreflexive(bytes@, 0);
                    }
                }
                assert forall|i: int, j: int| 0 <= i < j < after.len() implies lex_lt(
                    #[trigger] name_bytes(after[i].0@),
                    #[trigger] name_bytes(after[j].0@),
                ) by {
                    let bi = if i < lb { i } else { i - 1 };
                    let bj = if j < lb { j } else { j - 1 };
                    if i == lb {
                        assert(after[j] == before[bj]);
                        assert(lex_lt(bytes@, name_bytes(before[bj].0@)));
                    } else if j == lb {
                        assert(after[i] == before[bi]);
                        assert(lex_lt(name_bytes(before[bi].0@), bytes@));
                    } else {
                        assert(after[i] == before[bi]);
                        assert(after[j] == before[bj]);
                        assert(lex_lt(name_bytes(before[bi].0@), name_bytes(before[bj].0@)));
                    }
                }
                lemma_put_inserted(before, after, lb as int, entry);
            }
        }
    }

    /// Makes `k` stand for the function `v`, whatever it stood for.
    pub fn set_func(&mut self, k: String, v: Func) -> (r: Result<(), String>)
        requires
            old(self).wf(),
        ensures
            final(self).wf(),
            r is Ok,
            final(self)@ == old(self)@.insert(k@, MemberView::Fn(v@)),
    {
        self.put(k, EnvMember::Fn(v));
        Ok(())
    }

    /// The function that `q` stands for.
    pub fn get_func(&self, q: &str) -> (r: Option<&Func>)
        requires
            self.wf(),
        ensures
            match r {
                Some(f) => self@.contains_key(q@) && self@[q@] == MemberView::Fn(f@),
                None => !(self@.contains_key(q@) && self@[q@] is Fn),
            },
    {
        match self.find(q) {
            Some(i) => match &self.members[i].1 {
                EnvMember::Fn(v) => Some(v),
                _ => None,
            },
            None => None,
        }
    }

    /// Makes `k` stand for the variable `v`, whatever it stood for.
    pub fn set_var(&mut self, k: &str, v: Number) -> (r: Result<(), String>)
        requires
            old(self).wf(),
        ensures
            final(self).wf(),
            r is Ok,
            final(self)@ == old(self)@.insert(k@, MemberView::Var(v)),
    {
        self.put(String::from_str(k), EnvMember::Var(v));
        Ok(())
    }

    /// The variable that `q` stands for.
    pub fn get_var(&self, q: &str) -> (r: Option<&Number>)
        requires
            self.wf(),
        ensures
            match r {
                Some(n) => self@.contains_key(q@) && self@[q@] == MemberView::Var(*n),
                None => !(self@.contains_key(q@) && self@[q@] is Var),
            },
    {
        match self.find(q) {
            Some(i) => match &self.members[i].1 {
                EnvMember::Var(v) => Some(v),
                _ => None,
            },
            None => None,
        }
    }

    /// The members whose names begin with `q`, in the order of their names.
    ///
    /// The first of them is found by bisection and the others follow it, so
    /// no other member is looked at but the one that ends the run.
    pub fn search<'a>(&'a self, q: &str) -> (r: Vec<(&'a str, &'a EnvMember)>)
        requires
            self.wf(),
        ensures
            forall|i: int|
                0 <= i < r@.len() ==> {
                    &&& is_prefix(name_bytes(q@), name_bytes((#[trigger] r@[i]).0@))
                    &&& self@.contains_key(r@[i].0@)
                    &&& self@[r@[i].0@] == r@[i].1@
                },
            forall|i: int, j: int|
                0 <= i < j < r@.len() ==> lex_lt(
                    #[trigger] name_bytes(r@[i].0@),
                    #[trigger] name_bytes(r@[j].0@),
                ),
            forall|name: Seq<char>|
                self@.contains_key(name) && is_prefix(name_bytes(q@), name_bytes(name))
                    ==> exists|i: int| 0 <= i < r@.len() && (#[trigger] r@[i]).0@ == name,
    {
        let bytes = q.as_bytes();
        let lb = self.lower_bound(bytes);
        let mut out: Vec<(&'a str, &'a EnvMember)> = Vec::new();
        let mut i: usize = lb;
        while i < self.members.len() && bytes_start_with(
            self.members[i].0.as_str().as_bytes(),
            bytes,
        )
            invariant
                self.wf(),
                bytes@ == name_bytes(q@),
                lb <= i <= self.members@.len(),
                out@.len() == i - lb,
                forall|k: int|
                    0 <= k < out@.len() ==> {
                        &&& (#[trigger] out@[k]).0@ == self.members@[lb + k].0@
                        &&& out@[k].1@ == self.members@[lb + k].1@
                        &&& is_prefix(bytes@, name_bytes(out@[k].0@))
                    },
            decreases self.members@.len() - i,
        {
            out.push((self.members[i].0.as_str(), &self.members[i].1));
            i += 1;
        }
        proof {
            let members = self.members@;
            assert forall|k: int| 0 <= k < out@.len() implies {
                &&& is_prefix(name_bytes(q@), name_bytes((#[trigger] out@[k]).0@))
                &&& self@.contains_key(out@[k].0@)
                &&& self@[out@[k].0@] == out@[k].1@
            } by {
                lemma_one_place(members, lb + k);
            }
            assert forall|k: int, l: int| 0 <= k < l < out@.len() implies lex_lt(
                #[trigger] name_bytes(out@[k].0@),
                #[trigger] name_bytes(out@[l].0@),
            ) by {
                assert(out@[k].0@ == members[lb + k].0@);
                assert(out@[l].0@ == members[lb + l].0@);
                assert(lex_lt(name_bytes(members[lb + k].0@), name_bytes(members[lb + l].0@)));
            }
            assert forall|name: Seq<char>|
                self@.contains_key(name) && is_prefix(
                    name_bytes(q@),
                    name_bytes(name),
                ) implies exists|k: int| 0 <= k < out@.len() && (#[trigger] out@[k]).0@ == name by {
                let p = place(members, name);
                lemma_one_place(members, p);
                lemma_prefix_not_after(bytes@, name_bytes(name), 0);
                assert(!lex_lt(name_bytes(members[p].0@), bytes@));
                assert(p >= lb);
                if p >= i {
                    // the member at `i` ends the run, yet lies between the
                    // prefix and a name that has it
                    if p > i {
                        assert(lex_lt(name_bytes(members[i as int].0@), name_bytes(members[p].0@)));
                        lemma_prefix_between(
                            bytes@,
                            name_bytes(members[i as int].0@),
                            name_bytes(name),
                            0,
                        );
                    }
                    assert(false);
                }
                assert(out@[p - lb].0@ == name);
            }
        }
        out
    }
}

/// Replacing the member at the place of a name changes the mapping at that
/// name only.
proof fn lemma_put_replaced(
    before: Seq<(String, EnvMember)>,
    after: Seq<(String, EnvMember)>,
    at: int,
    entry: (String, EnvMember),
)
    requires
        strictly_sorted(before),
        strictly_sorted(after),
        0 <= at < before.len(),
        before[at].0@ == entry.0@,
        after == before.update(at, entry),
    ensures
        mapping(after) == mapping(before).insert(entry.0@, entry.1@),
{
    let expected = mapping(before).insert(entry.0@, entry.1@);
    assert(after[at] == entry);
    lemma_one_place(after, at);
    assert forall|name: Seq<char>| #[trigger]
        mapping(after).dom().contains(name) == expected.dom().contains(name) by {
        if mapping(after).dom().contains(name) {
            let i = place(after, name);
            lemma_one_place(after, i);
            if i != at {
                assert(after[i] == before[i]);
                lemma_one_place(before, i);
            }
        }
        if expected.dom().contains(name) && name != entry.0@ {
            let i = place(before, name);
            lemma_one_place(before, i);
            assert(after[i] == before[i]);
            lemma_one_place(after, i);
        }
    }
    assert forall|name: Seq<char>| #[trigger]
        mapping(after).dom().contains(name) implies mapping(after)[name] == expected[name] by {
        let i = place(after, name);
        lemma_one_place(after, i);
        if i != at {
            assert(after[i] == before[i]);
            lemma_one_place(before, i);
            lemma_one_place(before, at);
        }
    }
    assert(mapping(after) =~= expected);
}

/// Inserting a new name between its neighbours extends the mapping by that
/// name.
proof fn lemma_put_inserted(
    before: Seq<(String, EnvMember)>,
    after: Seq<(String, EnvMember)>,
    at: int,
    entry: (String, EnvMember),
)
    requires
        strictly_sorted(before),
        strictly_sorted(after),
        0 <= at <= before.len(),
        after == before.insert(at, entry),
    ensures
        mapping(after) == mapping(before).insert(entry.0@, entry.1@),
{
    let expected = mapping(before).insert(entry.0@, entry.1@);
    assert(after[at] == entry);
    lemma_one_place(after, at);
    assert forall|name: Seq<char>| #[trigger]
        mapping(after).dom().contains(name) == expected.dom().contains(name) by {
        if mapping(after).dom().contains(name) {
            let i = place(after, name);
            lemma_one_place(after, i);
            if i != at {
                let b = if i < at {
                    i
                } else {
                    i - 1
                };
                assert(after[i] == before[b]);
                lemma_one_place(before, b);
            }
        }
        if expected.dom().contains(name) && name != entry.0@ {
            let b = place(before, name);
            lemma_one_place(before, b);
            let i = if b < at {
                b
            } else {
                b + 1
            };
            assert(after[i] == before[b]);
            lemma_one_place(after, i);
        }
    }
    assert forall|name: Seq<char>| #[trigger]
        mapping(after).dom().contains(name) implies mapping(after)[name] == expected[name] by {
        let i = place(after, name);
        lemma_one_place(after, i);
        if i != at {
            let b = if i < at {
                i
            } else {
                i - 1
            };
            assert(after[i] == before[b]);
            lemma_one_place(before, b);
        }
    }
    assert(mapping(after) =~= expected);
}

} // verus!
