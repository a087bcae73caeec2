//! The public API enumerator: a depth-first walk of a package's module tree that lists
//! every public free function and every public method of a local struct.
use vstd::prelude::*;
use crate::resolve::NavError;
use vstd::set_lib::{lemma_int_range, lemma_len_subset, set_int_range};

verus! {

/// Visibility of a declaration, as the semantic model reports it.
#[derive(Clone, Copy, Debug, PartialEq, Eq, Structural)]
pub enum Visibility {
    Public,
    Crate,
    Restricted,
    Private,
}

/// Kind of a declared item; only functions are listed.
#[derive(Clone, Copy, Debug, PartialEq, Eq, Structural)]
pub enum ItemKind {
    Function,
    Struct,
    Enum,
    Union,
    Trait,
    TypeAlias,
    Const,
    Static,
    Module,
    Macro,
    Other,
}

/// An item declared in a module. `vis` is its definition-site visibility, absent
/// where the model reports none.
#[derive(Debug)]
pub struct Decl {
    pub kind: ItemKind,
    pub name: String,
    pub params: String,
    pub vis: Option<Visibility>,
}

/// An item of an impl block.
#[derive(Debug)]
pub struct AssocItem {
    pub kind: ItemKind,
    pub name: String,
    pub params: String,
    pub vis: Visibility,
}

/// The type an impl block is for: a struct of this package, by name, or anything else.
#[derive(Debug)]
pub enum ImplTarget {
    LocalStruct(String),
    Other,
}

/// An impl block: what it is for and its items.
#[derive(Debug)]
pub struct ImplBlock {
    pub target: ImplTarget,
    pub items: Vec<AssocItem>,
}

/// A module: its name (the root has none), its parent and children as indices into
/// the tree, its declarations, and its impl blocks.
#[derive(Debug)]
pub struct ModuleNode {
    pub name: Option<String>,
    pub parent: Option<usize>,
    pub children: Vec<usize>,
    pub decls: Vec<Decl>,
    pub impls: Vec<ImplBlock>,
}

/// A package's module tree, the root at index 0.
#[derive(Debug)]
pub struct ModuleTree {
    pub modules: Vec<ModuleNode>,
}

/// One listed function: where it comes from (module, impl block if it is a method,
/// item index), its qualified path segments, and its parameter list as declared.
#[derive(Debug)]
pub struct ApiEntry {
    pub module: usize,
    pub block: Option<usize>,
    pub item: usize,
    pub path: Vec<String>,
    pub params: String,
}

/// Index of the parent of module `m`.
pub open spec fn parent_of(mods: Seq<ModuleNode>, m: int) -> int {
    mods[m].parent->Some_0 as int
}

impl ModuleTree {
    /// A tree rooted at 0: every other module has a parent of smaller index and is
    /// listed among its children exactly once; children name their parent back.
    pub open spec fn wf(&self) -> bool {
        let mods = self.modules@;
        &&& mods.len() > 0
        &&& mods[0].parent is None
        &&& forall|m: int|
            0 < m < mods.len() ==> (#[trigger] mods[m]).parent is Some && parent_of(mods, m) < m
                && mods[parent_of(mods, m)].children@.contains(m as usize)
        &&& forall|m: int, j: int|
            0 <= m < mods.len() && 0 <= j < mods[m].children@.len() ==> {
                let c = #[trigger] mods[m].children@[j];
                c < mods.len() && mods[c as int].parent == Some(m as usize)
            }
        &&& forall|m: int| 0 <= m < mods.len() ==> (#[trigger] mods[m]).children@.no_duplicates()
    }
}

/// Names of the named modules from the root down to `m`.
pub open spec fn mod_names(mods: Seq<ModuleNode>, m: int) -> Seq<Seq<char>>
    decreases m,
{
    let up = match mods[m].parent {
        Some(p) => if 0 <= p < m {
            mod_names(mods, p as int)
        } else {
            Seq::empty()
        },
        None => Seq::empty(),
    };
    match mods[m].name {
        Some(s) => up.push(s@),
        None => up,
    }
}

/// The views of a path's segments.
pub open spec fn segments(v: Seq<String>) -> Seq<Seq<char>> {
    v.map_values(|s: String| s@)
}

/// Names of the named modules from the root down to `m`, in that order.
pub fn ancestry_names(tree: &ModuleTree, m: usize) -> (r: Vec<String>)
    requires
        tree.wf(),
        m < tree.modules@.len(),
    ensures
        segments(r@) == mod_names(tree.modules@, m as int),
{
    let ghost mods = tree.modules@;
    let mut acc: Vec<String> = Vec::new();
    let mut cur: usize = m;
    loop
        invariant
            tree.wf(),
            mods == tree.modules@,
            cur < mods.len(),
            mod_names(mods, m as int) == mod_names(mods, cur as int) + segments(acc@),
        decreases cur,
    {
        let node = &tree.modules[cur];
        let ghost before = acc@;
        match &node.name {
            Some(s) => {
                acc.insert(0, s.clone());
                assert(segments(acc@) =~= seq![s@] + segments(before));
            },
            None => {},
        }
        match node.parent {
            Some(p) => {
                assert(cur > 0);
                assert(mod_names(mods, m as int) == mod_names(mods, p as int) + segments(acc@)) by {
                    assert(mod_names(mods, cur as int) =~= match node.name {
                        Some(s) => mod_names(mods, p as int).push(s@),
                        None => mod_names(mods, p as int),
                    });
                    assert(mod_names(mods, p as int) + segments(acc@) =~= mod_names(mods, cur as int) + segments(before));
                }
                cur = p;
            },
            None => {
                assert(segments(acc@) =~= mod_names(mods, m as int));
                return acc;
            },
        }
    }
}

/// A function whose visibility is exactly public.
pub open spec fn is_public_fn(kind: ItemKind, vis: Option<Visibility>) -> bool {
    kind == ItemKind::Function && vis == Some(Visibility::Public)
}

/// `e` lists a public function of the tree under its qualified path: a free function
/// as the module's names then its own, a method of a local struct `S` as the module's
/// names, then `S`, then its own.
pub open spec fn entry_ok(mods: Seq<ModuleNode>, e: ApiEntry) -> bool {
    let m = e.module as int;
    &&& 0 <= m < mods.len()
    &&& match e.block {
        None => {
            let d = mods[m].decls@[e.item as int];
            &&& e.item < mods[m].decls@.len()
            &&& is_public_fn(d.kind, d.vis)
            &&& segments(e.path@) == mod_names(mods, m).push(d.name@)
            &&& e.params@ == d.params@
        },
        Some(b) => {
            let blk = mods[m].impls@[b as int];
            let it = blk.items@[e.item as int];
            &&& b < mods[m].impls@.len()
            &&& e.item < blk.items@.len()
            &&& blk.target is LocalStruct
            &&& is_public_fn(it.kind, Some(it.vis))
            &&& segments(e.path@) == mod_names(mods, m).push(blk.target->LocalStruct_0@).push(it.name@)
            &&& e.params@ == it.params@
        },
    }
}

/// Some entry of `out` lists declaration `d` of module `m`.
pub open spec fn free_fn_listed(out: Seq<ApiEntry>, m: int, d: int) -> bool {
    exists|k: int|
        0 <= k < out.len() && (#[trigger] out[k]).module == m && out[k].block is None && out[k].item == d
}

/// Some entry of `out` lists item `i` of impl block `b` of module `m`.
pub open spec fn method_listed(out: Seq<ApiEntry>, m: int, b: int, i: int) -> bool {
    exists|k: int|
        0 <= k < out.len() && (#[trigger] out[k]).module == m && out[k].block == Some(b as usize)
            && out[k].item == i
}

/// Every public function of module `m`, and every public method of its impl blocks for
/// local structs, is listed in `out`.
pub open spec fn module_covered(mods: Seq<ModuleNode>, out: Seq<ApiEntry>, m: int) -> bool {
    &&& forall|d: int|
        0 <= d < mods[m].decls@.len() && is_public_fn(
            (#[trigger] mods[m].decls@[d]).kind,
            mods[m].decls@[d].vis,
        ) ==> free_fn_listed(out, m, d)
    &&& forall|b: int, i: int|
        0 <= b < mods[m].impls@.len() && 0 <= i < mods[m].impls@[b].items@.len()
            && mods[m].impls@[b].target is LocalStruct && is_public_fn(
            (#[trigger] mods[m].impls@[b].items@[i]).kind,
            Some(mods[m].impls@[b].items@[i].vis),
        ) ==> method_listed(out, m, b, i)
}

/// `longer` starts with `shorter`.
pub open spec fn extends(longer: Seq<ApiEntry>, shorter: Seq<ApiEntry>) -> bool {
    &&& shorter.len() <= longer.len()
    &&& forall|k: int| 0 <= k < shorter.len() ==> #[trigger] longer[k] == shorter[k]
}

proof fn lemma_covered_extends(mods: Seq<ModuleNode>, a: Seq<ApiEntry>, b: Seq<ApiEntry>, m: int)
    requires
        extends(b, a),
        module_covered(mods, a, m),
    ensures
        module_covered(mods, b, m),
{
    assert forall|d: int|
        0 <= d < mods[m].decls@.len() && is_public_fn(
            (#[trigger] mods[m].decls@[d]).kind,
            mods[m].decls@[d].vis,
        ) implies free_fn_listed(b, m, d) by {
        let k = choose|k: int|
            0 <= k < a.len() && (#[trigger] a[k]).module == m && a[k].block is None && a[k].item == d;
        assert(b[k] == a[k]);
    }
    assert forall|bb: int, i: int|
        0 <= bb < mods[m].impls@.len() && 0 <= i < mods[m].impls@[bb].items@.len()
            && mods[m].impls@[bb].target is LocalStruct && is_public_fn(
            (#[trigger] mods[m].impls@[bb].items@[i]).kind,
            Some(mods[m].impls@[bb].items@[i].vis),
        ) implies method_listed(b, m, bb, i) by {
        let k = choose|k: int|
            0 <= k < a.len() && (#[trigger] a[k]).module == m && a[k].block == Some(bb as usize)
                && a[k].item == i;
        assert(b[k] == a[k]);
    }
}

/// Appends to `out` an entry for each public function of module `m` and each public
/// method of its impl blocks for local structs.
pub fn list_module(tree: &ModuleTree, m: usize, out: &mut Vec<ApiEntry>)
    requires
        tree.wf(),
        m < tree.modules@.len(),
    ensures
        extends(final(out)@, old(out)@),
        forall|k: int| old(out)@.len() <= k < final(out)@.len() ==> entry_ok(tree.modules@, #[trigger] final(out)@[k]),
        module_covered(tree.modules@, final(out)@, m as int),
{
    let ghost mods = tree.modules@;
    let ghost start = out@;
    let node = &tree.modules[m];
    let base = ancestry_names(tree, m);
    let mut d: usize = 0;
    while d < node.decls.len()
        invariant
            mods == tree.modules@,
            m < mods.len(),
            *node == mods[m as int],
            segments(base@) == mod_names(mods, m as int),
            d <= node.decls@.len(),
            extends(out@, start),
            forall|k: int| start.len() <= k < out@.len() ==> entry_ok(mods, #[trigger] out@[k]),
            forall|dd: int|
                0 <= dd < d && is_public_fn((#[trigger] node.decls@[dd]).kind, node.decls@[dd].vis)
                    ==> free_fn_listed(out@, m as int, dd),
        decreases node.decls@.len() - d,
    {
        let decl = &node.decls[d];
        if decl.kind == ItemKind::Function && decl.vis == Some(Visibility::Public) {
            let mut path = base.clone();
            path.push(decl.name.clone());
            assert(segments(path@) =~= segments(base@).push(decl.name@));
            let ghost prev = out@;
            out.push(ApiEntry { module: m, block: None, item: d, path, params: decl.params.clone() });
            assert forall|dd: int|
                0 <= dd < d + 1 && is_public_fn((#[trigger] node.decls@[dd]).kind, node.decls@[dd].vis)
                    implies free_fn_listed(out@, m as int, dd) by {
                if dd < d {
                    let k = choose|k: int|
                        0 <= k < prev.len() && (#[trigger] prev[k]).module == m && prev[k].block is None
                            && prev[k].item == dd;
                    assert(out@[k] == prev[k]);
                } else {
                    assert(out@[prev.len() as int].module == m);
                }
            }
        }
        d = d + 1;
    }
    let mut b: usize = 0;
    while b < node.impls.len()
        invariant
            mods == tree.modules@,
            m < mods.len(),
            *node == mods[m as int],
            segments(base@) == mod_names(mods, m as int),
            b <= node.impls@.len(),
            extends(out@, start),
            forall|k: int| start.len() <= k < out@.len() ==> entry_ok(mods, #[trigger] out@[k]),
            forall|dd: int|
                0 <= dd < node.decls@.len() && is_public_fn((#[trigger] node.decls@[dd]).kind, node.decls@[dd].vis)
                    ==> free_fn_listed(out@, m as int, dd),
            forall|bb: int, i: int|
                0 <= bb < b && 0 <= i < node.impls@[bb].items@.len()
                    && node.impls@[bb].target is LocalStruct && is_public_fn(
                    (#[trigger] node.impls@[bb].items@[i]).kind,
                    Some(node.impls@[bb].items@[i].vis),
                ) ==> method_listed(out@, m as int, bb, i),
        decreases node.impls@.len() - b,
    {
        let blk = &node.impls[b];
        match &blk.target {
            ImplTarget::LocalStruct(sname) => {
                let mut i: usize = 0;
                while i < blk.items.len()
                    invariant
                        mods == tree.modules@,
                        m < mods.len(),
                        *node == mods[m as int],
                        b < node.impls@.len(),
                        *blk == node.impls@[b as int],
                        blk.target == ImplTarget::LocalStruct(*sname),
                        segments(base@) == mod_names(mods, m as int),
                        i <= blk.items@.len(),
                        extends(out@, start),
                        forall|k: int| start.len() <= k < out@.len() ==> entry_ok(mods, #[trigger] out@[k]),
                        forall|dd: int|
                            0 <= dd < node.decls@.len() && is_public_fn((#[trigger] node.decls@[dd]).kind, node.decls@[dd].vis)
                                ==> free_fn_listed(out@, m as int, dd),
                        forall|bb: int, ii: int|
                            0 <= bb < b + 1 && 0 <= ii < node.impls@[bb].items@.len()
                                && (bb < b || ii < i)
                                && node.impls@[bb].target is LocalStruct && is_public_fn(
                                (#[trigger] node.impls@[bb].items@[ii]).kind,
                                Some(node.impls@[bb].items@[ii].vis),
                            ) ==> method_listed(out@, m as int, bb, ii),
                    decreases blk.items@.len() - i,
                {
                    let it = &blk.items[i];
                    if it.kind == ItemKind::Function && it.vis == Visibility::Public {
                        let mut path = base.clone();
                        path.push(sname.clone());
                        path.push(it.name.clone());
                        assert(segments(path@) =~= segments(base@).push(sname@).push(it.name@));
                        let ghost prev = out@;
                        out.push(ApiEntry { module: m, block: Some(b), item: i, path, params: it.params.clone() });
                        assert forall|dd: int|
                            0 <= dd < node.decls@.len() && is_public_fn((#[trigger] node.decls@[dd]).kind, node.decls@[dd].vis)
                                implies free_fn_listed(out@, m as int, dd) by {
                            let k = choose|k: int|
                                0 <= k < prev.len() && (#[trigger] prev[k]).module == m && prev[k].block is None
                                    && prev[k].item == dd;
                            assert(out@[k] == prev[k]);
                        }
                        assert forall|bb: int, ii: int|
                            0 <= bb < b + 1 && 0 <= ii < node.impls@[bb].items@.len()
                                && (bb < b || ii < i + 1)
                                && node.impls@[bb].target is LocalStruct && is_public_fn(
                                (#[trigger] node.impls@[bb].items@[ii]).kind,
                                Some(node.impls@[bb].items@[ii].vis),
                            ) implies method_listed(out@, m as int, bb, ii) by {
                            if bb == b && ii == i {
                                assert(out@[prev.len() as int].module == m);
                            } else {
                                let k = choose|k: int|
                                    0 <= k < prev.len() && (#[trigger] prev[k]).module == m
                                        && prev[k].block == Some(bb as usize) && prev[k].item == ii;
                                assert(out@[k] == prev[k]);
                            }
                        }
                    }
                    i = i + 1;
                }
            },
            ImplTarget::Other => {},
        }
        b = b + 1;
    }
}

/// Every module of a well-formed tree is reached from the root by parent links, so a
/// set that holds the root and the children of its members holds every module.
proof fn lemma_closed_holds_all(mods: Seq<ModuleNode>, popped: Set<int>, m: int)
    requires
        0 < mods.len() <= usize::MAX,
        forall|x: int|
            0 < x < mods.len() ==> (#[trigger] mods[x]).parent is Some && parent_of(mods, x) < x
                && mods[parent_of(mods, x)].children@.contains(x as usize),
        popped.contains(0),
        forall|x: int, j: int|
            popped.contains(x) && 0 <= j < mods[x].children@.len() ==> popped.contains(
                #[trigger] mods[x].children@[j] as int,
            ),
        0 <= m < mods.len(),
    ensures
        popped.contains(m),
    decreases m,
{
    if m > 0 {
        assert(mods[m].parent is Some);
        let p = parent_of(mods, m);
        assert(mods[p].children@.contains(m as usize));
        lemma_closed_holds_all(mods, popped, p);
        let j = choose|j: int| 0 <= j < mods[p].children@.len() && mods[p].children@[j] == m as usize;
        assert(popped.contains(mods[p].children@[j] as int));
    }
}

#[verifier::rlimit(100)]
/// Walks the module tree depth first from the root with an explicit stack and lists
/// every public free function and every public method of a local struct, each under
/// its qualified path, in the order of the walk.
pub fn public_api(tree: &ModuleTree) -> (r: Vec<ApiEntry>)
    requires
        tree.wf(),
    ensures
        forall|k: int| 0 <= k < r@.len() ==> entry_ok(tree.modules@, #[trigger] r@[k]),
        forall|m: int| 0 <= m < tree.modules@.len() ==> module_covered(tree.modules@, r@, m),
        api_listing(tree.modules@, r@),
{
    let ghost mods = tree.modules@;
    let n = tree.modules.len();
    let mut out: Vec<ApiEntry> = Vec::new();
    let mut stack: Vec<usize> = Vec::new();
    stack.push(0);
    let ghost mut popped: Set<int> = Set::empty();
    proof {
        assert(stack@[0] == 0);
        lemma_int_range(0, n as int);
    }
    while stack.len() > 0
        invariant
            tree.wf(),
            mods == tree.modules@,
            n == mods.len(),
            set_int_range(0, n as int).finite(),
            set_int_range(0, n as int).len() == n,
            popped.subset_of(set_int_range(0, n as int)),
            forall|i: int| 0 <= i < stack@.len() ==> (#[trigger] stack@[i]) < n,
            stack@.no_duplicates(),
            forall|i: int| 0 <= i < stack@.len() ==> !popped.contains(#[trigger] stack@[i] as int),
            popped.contains(0) || stack@.contains(0),
            forall|x: int| popped.contains(x) && x != 0 ==> popped.contains(parent_of(mods, x)),
            forall|i: int|
                0 <= i < stack@.len() && #[trigger] stack@[i] != 0 ==> popped.contains(
                    parent_of(mods, stack@[i] as int),
                ),
            forall|x: int, j: int|
                popped.contains(x) && 0 <= j < mods[x].children@.len() ==> popped.contains(
                    #[trigger] mods[x].children@[j] as int,
                ) || stack@.contains(mods[x].children@[j]),
            forall|k: int| 0 <= k < out@.len() ==> entry_ok(mods, #[trigger] out@[k]),
            forall|x: int| #[trigger] popped.contains(x) ==> module_covered(mods, out@, x),
        decreases n - popped.len(),
    {
        let ghost whole = stack@;
        let m = stack.pop().unwrap();
        let ghost before = popped;
        let ghost rest = stack@;
        proof {
            lemma_len_subset(popped.insert(m as int), set_int_range(0, n as int));
            assert(whole =~= rest.push(m));
            popped = popped.insert(m as int);
        }
        let ghost out_before = out@;
        list_module(tree, m, &mut out);
        proof {
            assert forall|x: int| #[trigger] popped.contains(x) implies module_covered(mods, out@, x) by {
                if x != m {
                    lemma_covered_extends(mods, out_before, out@, x);
                }
            }
        }
        let node = &tree.modules[m];
        let mut j: usize = 0;
        while j < node.children.len()
            invariant
                tree.wf(),
                mods == tree.modules@,
                n == mods.len(),
                m < n,
                *node == mods[m as int],
                !before.contains(m as int),
                whole == rest.push(m),
                popped == before.insert(m as int),
                j <= node.children@.len(),
                stack@ == rest + node.children@.take(j as int),
                forall|i: int| 0 <= i < rest.len() ==> (#[trigger] rest[i]) < n,
                rest.no_duplicates(),
                forall|i: int| 0 <= i < rest.len() ==> !popped.contains(#[trigger] rest[i] as int),
                forall|i: int|
                    0 <= i < rest.len() && #[trigger] rest[i] != 0 ==> before.contains(
                        parent_of(mods, rest[i] as int),
                    ),
            decreases node.children@.len() - j,
        {
            let c = node.children[j];
            proof {
                assert(mods[m as int].children@[j as int] == c);
                assert(c < n && mods[c as int].parent == Some(m));
                assert(c != 0);
                assert(!rest.contains(c)) by {
                    if rest.contains(c) {
                        let i = choose|i: int| 0 <= i < rest.len() && rest[i] == c;
                        assert(before.contains(parent_of(mods, rest[i] as int)));
                    }
                }
                assert(!node.children@.take(j as int).contains(c)) by {
                    if node.children@.take(j as int).contains(c) {
                        let i = choose|i: int| 0 <= i < j && node.children@.take(j as int)[i] == c;
                        assert(node.children@[i] == node.children@[j as int]);
                    }
                }
                assert(node.children@.take(j + 1) =~= node.children@.take(j as int).push(c));
            }
            stack.push(c);
            j = j + 1;
        }
        proof {
            assert(node.children@.take(j as int) =~= node.children@);
            assert forall|i: int| 0 <= i < stack@.len() implies !popped.contains(#[trigger] stack@[i] as int) by {
                if i >= rest.len() {
                    let c = node.children@[i - rest.len()];
                    assert(stack@[i] == c);
                    assert(mods[c as int].parent == Some(m));
                    if popped.contains(c as int) {
                        assert(c as int != m as int);
                        assert(before.contains(m as int));
                    }
                }
            }
            assert(stack@.no_duplicates()) by {
                assert forall|a: int, b: int| 0 <= a < b < stack@.len() implies stack@[a] != stack@[b] by {
                    if b >= rest.len() && a < rest.len() {
                        let c = stack@[b];
                        assert(c == node.children@[b - rest.len()]);
                        assert(mods[c as int].parent == Some(m));
                        if rest[a] == c {
                            assert(before.contains(parent_of(mods, rest[a] as int)));
                        }
                    } else if a >= rest.len() {
                        assert(stack@[a] == node.children@[a - rest.len()]);
                        assert(stack@[b] == node.children@[b - rest.len()]);
                    }
                }
            }
            assert forall|i: int|
                0 <= i < stack@.len() && #[trigger] stack@[i] != 0 implies popped.contains(
                    parent_of(mods, stack@[i] as int),
                ) by {
                if i >= rest.len() {
                    let c = node.children@[i - rest.len()];
                    assert(stack@[i] == c);
                    assert(mods[c as int].parent == Some(m));
                }
            }
            assert forall|x: int, jj: int|
                popped.contains(x) && 0 <= jj < mods[x].children@.len() implies popped.contains(
                    #[trigger] mods[x].children@[jj] as int,
                ) || stack@.contains(mods[x].children@[jj]) by {
                let c = mods[x].children@[jj];
                if x == m {
                    assert(stack@[rest.len() + jj] == c);
                } else if !popped.contains(c as int) {
                    assert(whole.contains(c));
                    let i = choose|i: int| 0 <= i < whole.len() && whole[i] == c;
                    if i < rest.len() {
                        assert(stack@[i] == c);
                    } else {
                        assert(c == m);
                    }
                }
            }
            assert(popped.contains(0) || stack@.contains(0)) by {
                if !popped.contains(0) {
                    assert(whole.contains(0));
                    let i = choose|i: int| 0 <= i < whole.len() && whole[i] == 0;
                    if i < rest.len() {
                        assert(stack@[i] == 0);
                    }
                }
            }
        }
    }
    proof {
        assert forall|m: int| 0 <= m < n implies module_covered(mods, out@, m) by {
            lemma_closed_holds_all(mods, popped, m);
        }
    }
    out
}

/// `names` joined with `::` between neighbours.
pub open spec fn join_segments(names: Seq<Seq<char>>) -> Seq<char>
    decreases names.len(),
{
    if names.len() == 0 {
        Seq::empty()
    } else if names.len() == 1 {
        names[0]
    } else {
        join_segments(names.drop_last()) + seq![':', ':'] + names.last()
    }
}

impl ApiEntry {
    /// The qualified path, its segments joined with `::`.
    pub fn qualified_name(&self) -> (r: String)
        ensures
            r@ == join_segments(segments(self.path@)),
    {
        let mut r = String::new();
        let mut i: usize = 0;
        while i < self.path.len()
            invariant
                i <= self.path@.len(),
                r@ == join_segments(segments(self.path@).take(i as int)),
            decreases self.path@.len() - i,
        {
            proof {
                reveal_strlit("::");
                assert(segments(self.path@).take(i + 1).drop_last() =~= segments(self.path@).take(i as int));
            }
            if i > 0 {
                r.append("::");
            }
            r.append(self.path[i].as_str());
            i = i + 1;
        }
        assert(segments(self.path@).take(i as int) =~= segments(self.path@));
        r
    }

    /// The listing line: `pub `, the qualified path, then the parameter list.
    pub fn render(&self) -> (r: String)
        ensures
            r@ == seq!['p', 'u', 'b', ' '] + join_segments(segments(self.path@)) + self.params@,
    {
        proof {
            reveal_strlit("pub ");
        }
        let mut r = "pub ".to_owned();
        let q = self.qualified_name();
        r.append(q.as_str());
        r.append(self.params.as_str());
        r
    }
}

/// What the walk lists: only public functions under their qualified paths, and all of
/// them.
pub open spec fn api_listing(mods: Seq<ModuleNode>, out: Seq<ApiEntry>) -> bool {
    &&& forall|k: int| 0 <= k < out.len() ==> entry_ok(mods, #[trigger] out[k])
    &&& forall|m: int| 0 <= m < mods.len() ==> module_covered(mods, out, m)
}

/// Number of parent links from `m` up to the root.
pub open spec fn depth(mods: Seq<ModuleNode>, m: int) -> nat
    decreases m,
{
    match mods[m].parent {
        Some(p) => if 0 <= p < m {
            depth(mods, p as int) + 1
        } else {
            0
        },
        None => 0,
    }
}

/// The module `k` parent links above `m`.
pub open spec fn ancestor(mods: Seq<ModuleNode>, m: int, k: nat) -> int
    decreases k,
{
    if k == 0 {
        m
    } else {
        ancestor(mods, parent_of(mods, m), (k - 1) as nat)
    }
}

/// The root is unnamed and every other module has a name.
pub open spec fn only_root_unnamed(mods: Seq<ModuleNode>) -> bool {
    &&& mods[0].name is None
    &&& forall|m: int| 0 < m < mods.len() ==> (#[trigger] mods[m]).name is Some
}

proof fn lemma_names_follow_ancestors(tree: &ModuleTree, m: int)
    requires
        tree.wf(),
        only_root_unnamed(tree.modules@),
        0 <= m < tree.modules@.len(),
    ensures
        mod_names(tree.modules@, m).len() == depth(tree.modules@, m),
        forall|i: int|
            0 <= i < depth(tree.modules@, m) ==> #[trigger] mod_names(tree.modules@, m)[i]
                == tree.modules@[ancestor(tree.modules@, m, (depth(tree.modules@, m) - 1 - i) as nat)].name->Some_0@,
    decreases m,
{
    let mods = tree.modules@;
    if m > 0 {
        assert(mods[m].parent is Some);
        let p = parent_of(mods, m);
        lemma_names_follow_ancestors(tree, p);
        assert forall|i: int| 0 <= i < depth(mods, m) implies #[trigger] mod_names(mods, m)[i]
            == mods[ancestor(mods, m, (depth(mods, m) - 1 - i) as nat)].name->Some_0@ by {
            if i < depth(mods, p) {
                assert(ancestor(mods, m, (depth(mods, m) - 1 - i) as nat) == ancestor(
                    mods,
                    p,
                    (depth(mods, p) - 1 - i) as nat,
                ));
            }
        }
    }
}

/// A public function declared directly in a module at depth `d` is listed under `d + 1`
/// segments: the names of the modules from the one just below the root down to its
/// own module, in that order, then the function's name.
pub proof fn lemma_free_function_path_has_depth_plus_one(tree: &ModuleTree, out: Seq<ApiEntry>, k: int)
    requires
        tree.wf(),
        only_root_unnamed(tree.modules@),
        api_listing(tree.modules@, out),
        0 <= k < out.len(),
        out[k].block is None,
    ensures
        ({
            let mods = tree.modules@;
            let m = out[k].module as int;
            let d = depth(mods, m);
            let segs = segments(out[k].path@);
            &&& segs.len() == d + 1
            &&& forall|i: int| 0 <= i < d ==> #[trigger] segs[i] == mods[ancestor(mods, m, (d - 1 - i) as nat)].name->Some_0@
            &&& segs[d as int] == mods[m].decls@[out[k].item as int].name@
        }),
{
    assert(entry_ok(tree.modules@, out[k]));
    lemma_names_follow_ancestors(tree, out[k].module as int);
}

/// Every public method of a local struct `S` in module `M` is listed as `M::S::method`,
/// with its parameter list.
pub proof fn lemma_method_listed_under_struct(tree: &ModuleTree, out: Seq<ApiEntry>, m: usize, b: usize, i: usize)
    requires
        tree.wf(),
        api_listing(tree.modules@, out),
        0 <= m < tree.modules@.len(),
        0 <= b < tree.modules@[m as int].impls@.len(),
        0 <= i < tree.modules@[m as int].impls@[b as int].items@.len(),
        tree.modules@[m as int].impls@[b as int].target is LocalStruct,
        tree.modules@[m as int].impls@[b as int].items@[i as int].kind == ItemKind::Function,
        tree.modules@[m as int].impls@[b as int].items@[i as int].vis == Visibility::Public,
    ensures
        exists|k: int|
            0 <= k < out.len() && segments((#[trigger] out[k]).path@) == mod_names(tree.modules@, m as int).push(
                tree.modules@[m as int].impls@[b as int].target->LocalStruct_0@,
            ).push(tree.modules@[m as int].impls@[b as int].items@[i as int].name@) && out[k].params@
                == tree.modules@[m as int].impls@[b as int].items@[i as int].params@,
{
    let mods = tree.modules@;
    assert(module_covered(mods, out, m as int));
    assert(is_public_fn(mods[m as int].impls@[b as int].items@[i as int].kind, Some(mods[m as int].impls@[b as int].items@[i as int].vis)));
    let k = choose|k: int|
        0 <= k < out.len() && (#[trigger] out[k]).module == m && out[k].block == Some(b)
            && out[k].item == i;
    assert(entry_ok(mods, out[k]));
}

/// Nothing whose visibility is other than public is listed: every entry comes from a
/// public function or a public method.
pub proof fn lemma_only_public_listed(tree: &ModuleTree, out: Seq<ApiEntry>, k: int)
    requires
        api_listing(tree.modules@, out),
        0 <= k < out.len(),
    ensures
        ({
            let mods = tree.modules@;
            let e = out[k];
            match e.block {
                None => mods[e.module as int].decls@[e.item as int].vis == Some(Visibility::Public),
                Some(b) => mods[e.module as int].impls@[b as int].items@[e.item as int].vis
                    == Visibility::Public,
            }
        }),
{
    assert(entry_ok(tree.modules@, out[k]));
}

/// Methods of impl blocks for anything but a local struct are never listed, public or
/// not.
pub proof fn lemma_foreign_impls_not_listed(tree: &ModuleTree, out: Seq<ApiEntry>, k: int)
    requires
        api_listing(tree.modules@, out),
        0 <= k < out.len(),
        out[k].block is Some,
    ensures
        tree.modules@[out[k].module as int].impls@[out[k].block->Some_0 as int].target is LocalStruct,
{
    assert(entry_ok(tree.modules@, out[k]));
}

/// `name` is present and equal to `wanted`.
pub open spec fn is_named(name: Option<String>, wanted: Seq<char>) -> bool {
    name matches Some(n) && n@ == wanted
}

/// Index of the first package whose display name is `wanted`, or `PackageNotFound`
/// when none has it.
pub fn find_package(names: &Vec<Option<String>>, wanted: &str) -> (r: Result<usize, NavError>)
    ensures
        r matches Ok(i) ==> i < names@.len() && is_named(names@[i as int], wanted@)
            && forall|j: int| 0 <= j < i ==> !is_named(#[trigger] names@[j], wanted@),
        r is Err <==> forall|j: int| 0 <= j < names@.len() ==> !is_named(#[trigger] names@[j], wanted@),
        r is Err ==> r == Err::<usize, NavError>(NavError::PackageNotFound),
{
    let w = wanted.to_owned();
    let mut i: usize = 0;
    while i < names.len()
        invariant
            i <= names@.len(),
            w@ == wanted@,
            forall|j: int| 0 <= j < i ==> !is_named(#[trigger] names@[j], wanted@),
        decreases names@.len() - i,
    {
        match &names[i] {
            Some(n) => {
                if *n == w {
                    return Ok(i);
                }
            },
            None => {},
        }
        i = i + 1;
    }
    Err(NavError::PackageNotFound)
}

} // verus!
