use ra_nav::resolve::NavError;
use ra_nav::walker::{
    find_package, public_api, AssocItem, Decl, ImplBlock, ImplTarget, ItemKind, ModuleNode,
    ModuleTree, Visibility,
};

fn func(name: &str, params: &str, vis: Option<Visibility>) -> Decl {
    Decl { kind: ItemKind::Function, name: name.to_string(), params: params.to_string(), vis }
}

fn method(name: &str, params: &str, vis: Visibility) -> AssocItem {
    AssocItem { kind: ItemKind::Function, name: name.to_string(), params: params.to_string(), vis }
}

fn module(name: Option<&str>, parent: Option<usize>, children: Vec<usize>) -> ModuleNode {
    ModuleNode {
        name: name.map(|s| s.to_string()),
        parent,
        children,
        decls: Vec::new(),
        impls: Vec::new(),
    }
}

fn lines(tree: &ModuleTree) -> Vec<String> {
    let mut v: Vec<String> = public_api(tree).iter().map(|e| e.render()).collect();
    v.sort();
    v
}

/// root -> a -> b, with `one`, `two` in `a` and `S::go` in `a::b`.
fn sample() -> ModuleTree {
    let root = module(None, None, vec![1]);
    let mut a = module(Some("a"), Some(0), vec![2]);
    a.decls.push(func("one", "()", Some(Visibility::Public)));
    a.decls.push(func("two", "()", Some(Visibility::Private)));
    let mut b = module(Some("b"), Some(1), vec![]);
    b.decls.push(Decl {
        kind: ItemKind::Struct,
        name: "S".to_string(),
        params: String::new(),
        vis: Some(Visibility::Public),
    });
    b.impls.push(ImplBlock {
        target: ImplTarget::LocalStruct("S".to_string()),
        items: vec![method("go", "(&self)", Visibility::Public)],
    });
    ModuleTree { modules: vec![root, a, b] }
}

#[test]
fn lists_public_function_and_method() {
    assert_eq!(lines(&sample()), vec!["pub a::b::S::go(&self)".to_string(), "pub a::one()".to_string()]);
}

#[test]
fn entries_carry_path_segments() {
    let tree = sample();
    let entries = public_api(&tree);
    let one = entries.iter().find(|e| e.block.is_none()).unwrap();
    assert_eq!(one.path, vec!["a".to_string(), "one".to_string()]);
    assert_eq!(one.qualified_name(), "a::one");
    let go = entries.iter().find(|e| e.block.is_some()).unwrap();
    assert_eq!(go.path, vec!["a", "b", "S", "go"]);
    assert_eq!(go.params, "(&self)");
}

#[test]
fn restricted_visibilities_are_left_out() {
    let mut root = module(None, None, vec![]);
    root.decls.push(func("p", "()", Some(Visibility::Public)));
    root.decls.push(func("c", "()", Some(Visibility::Crate)));
    root.decls.push(func("r", "()", Some(Visibility::Restricted)));
    root.decls.push(func("q", "()", Some(Visibility::Private)));
    root.decls.push(func("n", "()", None));
    root.decls.push(Decl {
        kind: ItemKind::Const,
        name: "K".to_string(),
        params: String::new(),
        vis: Some(Visibility::Public),
    });
    root.impls.push(ImplBlock {
        target: ImplTarget::LocalStruct("T".to_string()),
        items: vec![
            method("m1", "(&self)", Visibility::Crate),
            method("m2", "(&self)", Visibility::Restricted),
            method("m3", "(&self)", Visibility::Private),
            method("m4", "(self, x: u8)", Visibility::Public),
        ],
    });
    let tree = ModuleTree { modules: vec![root] };
    assert_eq!(lines(&tree), vec!["pub T::m4(self, x: u8)".to_string(), "pub p()".to_string()]);
}

#[test]
fn methods_of_foreign_types_are_left_out() {
    let mut root = module(None, None, vec![1]);
    root.impls.push(ImplBlock {
        target: ImplTarget::Other,
        items: vec![method("len", "(&self)", Visibility::Public)],
    });
    let mut m = module(Some("m"), Some(0), vec![]);
    m.impls.push(ImplBlock {
        target: ImplTarget::Other,
        items: vec![method("fmt", "(&self)", Visibility::Public)],
    });
    let tree = ModuleTree { modules: vec![root, m] };
    assert!(public_api(&tree).is_empty());
}

#[test]
fn deep_function_has_one_segment_per_level() {
    let root = module(None, None, vec![1]);
    let x = module(Some("x"), Some(0), vec![2]);
    let y = module(Some("y"), Some(1), vec![3]);
    let mut z = module(Some("z"), Some(2), vec![]);
    z.decls.push(func("deep", "(a: u32, b: u32)", Some(Visibility::Public)));
    let tree = ModuleTree { modules: vec![root, x, y, z] };
    let entries = public_api(&tree);
    assert_eq!(entries.len(), 1);
    assert_eq!(entries[0].path.len(), 4);
    assert_eq!(entries[0].render(), "pub x::y::z::deep(a: u32, b: u32)");
}

#[test]
fn sibling_modules_are_all_visited() {
    let root = module(None, None, vec![1, 2, 3]);
    let mut kids = Vec::new();
    for n in ["p", "q", "r"] {
        let mut m = module(Some(n), Some(0), vec![]);
        m.decls.push(func("f", "()", Some(Visibility::Public)));
        kids.push(m);
    }
    let mut modules = vec![root];
    modules.extend(kids);
    let tree = ModuleTree { modules };
    assert_eq!(
        lines(&tree),
        vec!["pub p::f()".to_string(), "pub q::f()".to_string(), "pub r::f()".to_string()]
    );
}

#[test]
fn empty_package_lists_nothing() {
    let tree = ModuleTree { modules: vec![module(None, None, vec![])] };
    assert!(public_api(&tree).is_empty());
}

#[test]
fn finds_package_by_display_name() {
    let names = vec![None, Some("core".to_string()), Some("demo".to_string()), Some("demo".to_string())];
    assert_eq!(find_package(&names, "demo"), Ok(2));
    assert_eq!(find_package(&names, "core"), Ok(1));
    assert_eq!(find_package(&names, "other"), Err(NavError::PackageNotFound));
    assert_eq!(find_package(&Vec::new(), "demo"), Err(NavError::PackageNotFound));
}
