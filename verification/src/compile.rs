//! Extraction of function signatures from a parsed program.
//!
//! A program's functions are gathered into an association list from
//! signature (name and argument types, which together identify an overload)
//! to what a caller needs to know (the return type).  A later declaration of
//! the same signature replaces an earlier one, and each signature appears at
//! most once — the shape a symbol table wants.

use crate::parse::grammar::SpecFunction;
use crate::parse::{Ast, Ident, Type};
use vstd::prelude::*;

verus! {

broadcast use vstd::seq::group_seq_axioms;

/// What identifies a function: its name and its argument types, in order.
#[derive(Debug, PartialEq, Eq)]
pub struct FunctionIdentifier {
    pub name: Ident,
    pub args: Vec<Type>,
}

/// What is recorded about a function: its return type, if it declares one.
#[derive(Debug, PartialEq, Eq)]
pub struct Function {
    pub return_type: Option<Type>,
}

/// The views of a sequence of type names.
pub open spec fn types_view(v: Seq<Type>) -> Seq<Seq<char>> {
    Seq::new(v.len(), |i: int| v[i].0@)
}

impl View for FunctionIdentifier {
    type V = (Seq<char>, Seq<Seq<char>>);

    open spec fn view(&self) -> (Seq<char>, Seq<Seq<char>>) {
        (self.name.0@, types_view(self.args@))
    }
}

impl View for Function {
    type V = Option<Seq<char>>;

    open spec fn view(&self) -> Option<Seq<char>> {
        match &self.return_type {
            Some(t) => Some(t.0@),
            None => None,
        }
    }
}

/// The views of an association list of signatures and return types.
pub open spec fn pairs_view(v: Seq<(FunctionIdentifier, Function)>) -> Seq<
    ((Seq<char>, Seq<Seq<char>>), Option<Seq<char>>),
> {
    Seq::new(v.len(), |i: int| (v[i].0@, v[i].1@))
}

/// The signature of a declared function: its name and argument types.
pub open spec fn key_of(f: SpecFunction) -> (Seq<char>, Seq<Seq<char>>) {
    (f.name, Seq::new(f.args.len(), |i: int| f.args[i].1))
}

/// What is recorded about a declared function.
pub open spec fn info_of(f: SpecFunction) -> Option<Seq<char>> {
    f.return_type
}

/// The index of the first entry with key `k`, or -1 if there is none.
pub open spec fn find_key(
    acc: Seq<((Seq<char>, Seq<Seq<char>>), Option<Seq<char>>)>,
    k: (Seq<char>, Seq<Seq<char>>),
) -> int
    decreases acc.len(),
{
    if acc.len() == 0 {
        -1
    } else if acc[0].0 == k {
        0
    } else {
        let j = find_key(acc.drop_first(), k);
        if j >= 0 {
            j + 1
        } else {
            -1
        }
    }
}

/// Insert or replace: a key already present has its value replaced in
/// place, a new key is appended.
pub open spec fn upsert(
    acc: Seq<((Seq<char>, Seq<Seq<char>>), Option<Seq<char>>)>,
    k: (Seq<char>, Seq<Seq<char>>),
    v: Option<Seq<char>>,
) -> Seq<((Seq<char>, Seq<Seq<char>>), Option<Seq<char>>)> {
    let i = find_key(acc, k);
    if i >= 0 {
        acc.update(i, (k, v))
    } else {
        acc.push((k, v))
    }
}

/// The association list extracted from a program's functions, processed in
/// declaration order: a signature declared twice keeps the later return
/// type.
pub open spec fn spec_extract_functions(fs: Seq<SpecFunction>) -> Seq<
    ((Seq<char>, Seq<Seq<char>>), Option<Seq<char>>),
>
    decreases fs.len(),
{
    if fs.len() == 0 {
        Seq::empty()
    } else {
        upsert(spec_extract_functions(fs.drop_last()), key_of(fs.last()), info_of(fs.last()))
    }
}

/// Where `find_key` points, and what it means: a non-negative result is the
/// first index holding the key, and -1 means the key is absent.
pub proof fn lemma_find_key(
    acc: Seq<((Seq<char>, Seq<Seq<char>>), Option<Seq<char>>)>,
    k: (Seq<char>, Seq<Seq<char>>),
)
    ensures
        find_key(acc, k) == -1 ==> forall|j: int| 0 <= j < acc.len() ==> acc[j].0 != k,
        find_key(acc, k) >= 0 ==> 0 <= find_key(acc, k) < acc.len() && acc[find_key(acc, k)].0
            == k && forall|j: int| 0 <= j < find_key(acc, k) ==> acc[j].0 != k,
    decreases acc.len(),
{
    if acc.len() > 0 && acc[0].0 != k {
        lemma_find_key(acc.drop_first(), k);
        assert(forall|j: int|
            1 <= j < acc.len() ==> acc[j] == acc.drop_first()[j - 1]);
    }
}

/// Distinct entries of the extracted list have distinct keys: the list is a
/// finite map.
pub proof fn lemma_extract_keys_unique(fs: Seq<SpecFunction>)
    ensures
        forall|i: int, j: int|
            0 <= i < j < spec_extract_functions(fs).len() ==> #[trigger] spec_extract_functions(
                fs,
            )[i].0 != #[trigger] spec_extract_functions(fs)[j].0,
    decreases fs.len(),
{
    if fs.len() > 0 {
        lemma_extract_keys_unique(fs.drop_last());
        let acc = spec_extract_functions(fs.drop_last());
        let k = key_of(fs.last());
        lemma_find_key(acc, k);
        let i = find_key(acc, k);
        if i >= 0 {
            assert(forall|j: int|
                0 <= j < acc.len() && j != i ==> #[trigger] acc.update(i, (k, info_of(fs.last())))[j]
                    == acc[j]);
        }
    }
}

/// Whether two signatures are the same: same name, same argument types.
fn fid_eq(a: &FunctionIdentifier, b: &FunctionIdentifier) -> (r: bool)
    ensures
        r == (a@ == b@),
{
    if !(a.name.0 == b.name.0) {
        assert(a@.0 != b@.0);
        return false;
    }
    if a.args.len() != b.args.len() {
        assert(types_view(a.args@).len() != types_view(b.args@).len());
        return false;
    }
    let n = a.args.len();
    let mut i: usize = 0;
    while i < n
        invariant
            0 <= i <= n == a.args@.len() == b.args@.len(),
            a.name.0@ == b.name.0@,
            forall|j: int| 0 <= j < i ==> a.args@[j].0@ == b.args@[j].0@,
        decreases n - i,
    {
        if !(a.args[i].0 == b.args[i].0) {
            assert(types_view(a.args@)[i as int] != types_view(b.args@)[i as int]);
            return false;
        }
        i = i + 1;
    }
    proof {
        assert(types_view(a.args@) =~= types_view(b.args@));
    }
    true
}

/// Extract all functions from the AST, by declaration order, into an
/// association list from signature to return type.  A signature declared
/// more than once keeps the return type of its last declaration, and no
/// signature appears twice.
pub fn extract_functions(ast: &Ast) -> (r: Vec<(FunctionIdentifier, Function)>)
    ensures
        pairs_view(r@) == spec_extract_functions(ast@),
{
    let nf = ast.functions.len();
    let mut out: Vec<(FunctionIdentifier, Function)> = Vec::new();
    let mut i: usize = 0;
    while i < nf
        invariant
            0 <= i <= nf == ast.functions@.len(),
            pairs_view(out@) =~= spec_extract_functions(
                crate::parse::views::functions_view(ast.functions@).take(i as int),
            ),
        decreases nf - i,
    {
        let f = &ast.functions[i];
        let ghost fv = crate::parse::views::function_view(f);
        let mut tys: Vec<Type> = Vec::new();
        let mut j: usize = 0;
        while j < f.args.len()
            invariant
                0 <= j <= f.args@.len(),
                types_view(tys@) =~= Seq::new(j as nat, |m: int| f.args@[m].1.0@),
            decreases f.args@.len() - j,
        {
            let ghost old_tys = tys@;
            tys.push(Type(f.args[j].1.0.clone()));
            proof {
                assert(types_view(old_tys).len() == j as int);
                assert(old_tys.len() == j as int);
                assert(tys@.last().0@ == f.args@[j as int].1.0@);
                assert forall|m: int| 0 <= m < tys@.len() implies types_view(tys@)[m] == Seq::new(
                    (j + 1) as nat,
                    |m2: int| f.args@[m2].1.0@,
                )[m] by {
                    if m < j {
                        assert(tys@[m] == old_tys[m]);
                        assert(types_view(old_tys)[m] == old_tys[m].0@);
                    }
                }
                assert(types_view(tys@) =~= Seq::new((j + 1) as nat, |m2: int| f.args@[m2].1.0@));
            }
            j = j + 1;
        }
        let key = FunctionIdentifier { name: Ident(f.name.0.clone()), args: tys };
        let value = Function {
            return_type: match &f.return_type {
                Some(t) => Some(Type(t.0.clone())),
                None => None,
            },
        };
        proof {
            assert(key@.1 =~= key_of(fv).1);
            assert(key@ == key_of(fv));
            assert(value@ == info_of(fv));
        }
        let mut k: usize = 0;
        let mut found = false;
        let no = out.len();
        while k < no && !found
            invariant
                0 <= k <= no == out@.len(),
                key@ == key_of(fv),
                !found ==> forall|m: int| 0 <= m < k ==> pairs_view(out@)[m].0 != key@,
                found ==> k < no && pairs_view(out@)[k as int].0 == key@ && forall|m: int|
                    0 <= m < k ==> pairs_view(out@)[m].0 != key@,
            decreases no - k + (if found { 0int } else { 1int }),
        {
            if fid_eq(&out[k].0, &key) {
                found = true;
            } else {
                k = k + 1;
            }
        }
        proof {
            lemma_find_key(pairs_view(out@), key@);
        }
        if found {
            proof {
                assert(find_key(pairs_view(out@), key@) == k as int);
            }
            let ghost old_out = out@;
            out.set(k, (key, value));
            proof {
                assert(pairs_view(out@) =~= pairs_view(old_out).update(
                    k as int,
                    (key_of(fv), info_of(fv)),
                ));
            }
        } else {
            proof {
                assert(find_key(pairs_view(out@), key@) == -1);
            }
            let ghost old_out = out@;
            out.push((key, value));
            proof {
                assert(pairs_view(out@) =~= pairs_view(old_out).push(
                    (key_of(fv), info_of(fv)),
                ));
            }
        }
        proof {
            let fsv = crate::parse::views::functions_view(ast.functions@);
            assert(fsv.take(i + 1).drop_last() =~= fsv.take(i as int));
            assert(fsv.take(i + 1).last() == fv);
        }
        i = i + 1;
    }
    proof {
        assert(crate::parse::views::functions_view(ast.functions@).take(nf as int)
            =~= crate::parse::views::functions_view(ast.functions@));
        assert(pairs_view(out@) =~= spec_extract_functions(ast@));
    }
    out
}

} // verus!
