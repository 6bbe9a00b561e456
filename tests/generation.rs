use codegen::builder::build_model;
use codegen::do_main;
use codegen::emit::{check_closed, emit, Flavor};
use codegen::error::{GenError, Malformed};
use codegen::model::{Body, Field, Grammar, Node, TypeRef};
use codegen::raw::{BuildConfig, RawBody, RawDecl, RawField, RawPayload, RawType, RawVariant};
use codegen::resolve::{find_name, is_word, resolve_type};
use codegen::schema::export_schema;

fn s(x: &str) -> String {
    x.to_string()
}

fn path(x: &str) -> RawType {
    RawType::Path(s(x))
}

fn wrap(h: &str, t: RawType) -> RawType {
    RawType::Apply1(s(h), Box::new(t))
}

fn field(name: &str, ty: RawType) -> RawField {
    RawField { name: s(name), ty, gate: None }
}

fn gated_field(name: &str, ty: RawType, gate: &str) -> RawField {
    RawField { name: s(name), ty, gate: Some(s(gate)) }
}

fn strukt(name: &str, fields: Vec<RawField>) -> RawDecl {
    RawDecl { name: s(name), body: RawBody::Struct(fields), gate: None, leaf_like: false }
}

fn enm(name: &str, variants: Vec<RawVariant>) -> RawDecl {
    RawDecl { name: s(name), body: RawBody::Enum(variants), gate: None, leaf_like: false }
}

fn variant(name: &str, payload: RawPayload) -> RawVariant {
    RawVariant { name: s(name), payload, gate: None }
}

fn config(leaves: &[&str], features: &[&str], enabled: &[&str]) -> BuildConfig {
    BuildConfig {
        leaves: leaves.iter().map(|x| s(x)).collect(),
        features: features.iter().map(|x| s(x)).collect(),
        enabled: enabled.iter().map(|x| s(x)).collect(),
        version: s("1.0.0"),
    }
}

fn build_err(ds: &Vec<RawDecl>, cfg: &BuildConfig) -> Option<GenError> {
    build_model(ds, cfg).err()
}

fn binary_expr(boxed: bool) -> Vec<RawDecl> {
    let operand = |n: &str| {
        if boxed {
            field(n, wrap("Box", path("Expr")))
        } else {
            field(n, path("Expr"))
        }
    };
    vec![enm(
        "Expr",
        vec![
            variant("Lit", RawPayload::Single(path("Lit"))),
            variant("Binary", RawPayload::Fields(vec![operand("left"), operand("right")])),
        ],
    )]
}

#[test]
fn words_and_lookup() {
    assert!(is_word(&s("Option"), "Option"));
    assert!(!is_word(&s("Optio"), "Option"));
    let names = vec![s("A"), s("B"), s("B")];
    assert_eq!(find_name(&names, &s("B")), Some(1));
    assert_eq!(find_name(&names, &s("C")), None);
}

#[test]
fn resolve_nested_wrappers() {
    let leaves = vec![s("Ident")];
    let nodes = vec![s("Expr")];
    let t = wrap("Option", wrap("Vec", wrap("Box", path("Expr"))));
    match resolve_type(&t, &leaves, &nodes) {
        Ok(TypeRef::Optional(a)) => match *a {
            TypeRef::Sequence(b) => match *b {
                TypeRef::Boxed(c) => assert!(matches!(*c, TypeRef::Node(0))),
                other => panic!("{:?}", other),
            },
            other => panic!("{:?}", other),
        },
        other => panic!("{:?}", other.err()),
    }
    assert!(matches!(resolve_type(&path("Ident"), &leaves, &nodes), Ok(TypeRef::Leaf(0))));
}

#[test]
fn resolve_separated() {
    let leaves = vec![s("Ident"), s("Comma")];
    let nodes = vec![s("Expr")];
    let t = RawType::Apply2(s("Punctuated"), Box::new(path("Expr")), Box::new(path("Comma")));
    match resolve_type(&t, &leaves, &nodes) {
        Ok(TypeRef::Separated(a, 1)) => assert!(matches!(*a, TypeRef::Node(0))),
        other => panic!("{:?}", other.err()),
    }
}

#[test]
fn resolve_errors() {
    let leaves = vec![s("Ident")];
    let nodes = vec![s("Expr")];
    let unknown = wrap("HashMap", path("Expr"));
    assert_eq!(resolve_type(&unknown, &leaves, &nodes).err(), Some(GenError::UnresolvedType));
    let pair = RawType::Apply2(s("Option"), Box::new(path("Expr")), Box::new(path("Ident")));
    assert_eq!(resolve_type(&pair, &leaves, &nodes).err(), Some(GenError::UnresolvedType));
    let missing = wrap("Vec", path("Stmt"));
    assert_eq!(
        resolve_type(&missing, &leaves, &nodes).err(),
        Some(GenError::MalformedGrammar(Malformed::UnresolvedReference))
    );
    let bad_sep = RawType::Apply2(s("Punctuated"), Box::new(path("Expr")), Box::new(path("Expr")));
    assert_eq!(
        resolve_type(&bad_sep, &leaves, &nodes).err(),
        Some(GenError::MalformedGrammar(Malformed::UnresolvedReference))
    );
}

#[test]
fn simple_struct_visits_leaves_in_order() {
    let ds = vec![strukt("Pair", vec![field("left", path("Leaf")), field("right", path("Leaf"))])];
    let cfg = config(&["Leaf"], &[], &[]);
    let g = build_model(&ds, &cfg).unwrap();
    let text = emit(&g, Flavor::Visit).unwrap();
    assert_eq!(
        text,
        "pub fn visit_Pair<V: Visit + ?Sized>(v: &mut V, node: &Pair) {\n\
         v.visit_leaf(&node.left);\n\
         v.visit_leaf(&node.right);\n\
         }\n"
    );
}

#[test]
fn boxed_self_reference_builds() {
    let ds = binary_expr(true);
    let cfg = config(&["Lit"], &[], &[]);
    let g = build_model(&ds, &cfg).unwrap();
    assert_eq!(g.nodes.len(), 1);
    let text = emit(&g, Flavor::Visit).unwrap();
    assert!(text.contains("Expr::Binary { left, right, } => {\nv.visit_Expr(&**left);\nv.visit_Expr(&**right);\n}\n"));
}

#[test]
fn unboxed_self_reference_fails() {
    let ds = binary_expr(false);
    let cfg = config(&["Lit"], &[], &[]);
    assert_eq!(build_err(&ds, &cfg), Some(GenError::MalformedGrammar(Malformed::UnboxedCycle)));
}

#[test]
fn indirect_and_optional_cycles() {
    let cfg = config(&["Ident"], &[], &[]);
    let two = vec![
        strukt("A", vec![field("b", wrap("Option", path("B")))]),
        strukt("B", vec![field("a", path("A"))]),
    ];
    assert_eq!(build_err(&two, &cfg), Some(GenError::MalformedGrammar(Malformed::UnboxedCycle)));
    let through_vec = vec![
        strukt("A", vec![field("b", path("B"))]),
        strukt("B", vec![field("items", wrap("Vec", path("A")))]),
    ];
    assert!(build_model(&through_vec, &cfg).is_ok());
}

#[test]
fn gated_node_is_left_out() {
    let mut gated = strukt("Extra", vec![field("id", path("Ident"))]);
    gated.gate = Some(s("full"));
    let ds = vec![strukt("Item", vec![field("id", path("Ident"))]), gated];
    let cfg = config(&["Ident"], &["full"], &[]);
    let g = build_model(&ds, &cfg).unwrap();
    assert_eq!(g.nodes.len(), 1);
    let schema = export_schema(&g, &cfg.version).unwrap();
    assert!(!schema.contains("Extra"));
    for fl in [Flavor::Visit, Flavor::VisitMut, Flavor::Fold, Flavor::Debug] {
        assert!(!emit(&g, fl).unwrap().contains("Extra"));
    }
    let on = config(&["Ident"], &["full"], &["full"]);
    assert_eq!(build_model(&ds, &on).unwrap().nodes.len(), 2);
}

#[test]
fn reference_to_gated_node_fails_unless_gated_too() {
    let mut gated = strukt("Extra", vec![field("id", path("Ident"))]);
    gated.gate = Some(s("full"));
    let cfg = config(&["Ident"], &["full"], &[]);
    let plain = vec![strukt("Item", vec![field("extra", path("Extra"))]), gated];
    assert_eq!(
        build_err(&plain, &cfg),
        Some(GenError::MalformedGrammar(Malformed::UnresolvedReference))
    );
    let mut gated = strukt("Extra", vec![field("id", path("Ident"))]);
    gated.gate = Some(s("full"));
    let both = vec![
        strukt("Item", vec![gated_field("extra", path("Extra"), "full"), field("id", path("Ident"))]),
        gated,
    ];
    let g = build_model(&both, &cfg).unwrap();
    match &g.nodes[0].body {
        Body::Struct(fs) => {
            assert_eq!(fs.len(), 1);
            assert_eq!(fs[0].name, "id");
        }
        Body::Enum(_) => panic!("expected a struct"),
    }
}

#[test]
fn gated_variant_has_no_arm() {
    let mut v = variant("Macro", RawPayload::Single(path("Ident")));
    v.gate = Some(s("full"));
    let ds = vec![enm("Item", vec![variant("Use", RawPayload::Unit), v])];
    let off = config(&["Ident"], &["full"], &[]);
    let on = config(&["Ident"], &["full"], &["full"]);
    let g_off = build_model(&ds, &off).unwrap();
    let g_on = build_model(&ds, &on).unwrap();
    for fl in [Flavor::Visit, Flavor::VisitMut, Flavor::Fold, Flavor::Debug] {
        let a = emit(&g_off, fl).unwrap();
        let b = emit(&g_on, fl).unwrap();
        assert_eq!(a.matches("Item::Use").count(), if fl == Flavor::Fold { 2 } else { 1 });
        assert!(!a.contains("Item::Macro"));
        assert!(b.contains("Item::Macro(it) => "));
    }
}

#[test]
fn errors_in_check_order() {
    let cfg = config(&["Ident"], &[], &[]);
    let dup = vec![strukt("A", vec![]), strukt("A", vec![])];
    assert_eq!(build_err(&dup, &cfg), Some(GenError::MalformedGrammar(Malformed::DuplicateNode)));
    let unknown = vec![strukt("A", vec![gated_field("x", path("Ident"), "nope")])];
    assert_eq!(build_err(&unknown, &cfg), Some(GenError::MalformedGrammar(Malformed::UnknownFeature)));
    let shape = vec![strukt("A", vec![field("x", wrap("Rc", path("Ident")))])];
    assert_eq!(build_err(&shape, &cfg), Some(GenError::UnresolvedType));
    let missing = vec![strukt("A", vec![field("x", path("B"))])];
    assert_eq!(
        build_err(&missing, &cfg),
        Some(GenError::MalformedGrammar(Malformed::UnresolvedReference))
    );
    let both = vec![strukt("A", vec![field("x", path("B"))]), strukt("A", vec![])];
    assert_eq!(build_err(&both, &cfg), Some(GenError::MalformedGrammar(Malformed::DuplicateNode)));
}

#[test]
fn nested_sequence_is_visited_element_by_element() {
    let ds = vec![
        strukt("Block", vec![field("stmts", wrap("Vec", wrap("Option", wrap("Box", path("Stmt")))))]),
        strukt("Stmt", vec![field("id", path("Ident"))]),
    ];
    let cfg = config(&["Ident"], &[], &[]);
    let g = build_model(&ds, &cfg).unwrap();
    let text = emit(&g, Flavor::Visit).unwrap();
    assert!(text.contains(
        "for it in &node.stmts {\nif let Some(it) = it {\nv.visit_Stmt(&**it);\n}\n}\n"
    ));
    let text = emit(&g, Flavor::VisitMut).unwrap();
    assert!(text.contains(
        "for it in &mut node.stmts {\nif let Some(it) = it {\nv.visit_mut_Stmt(&mut **it);\n}\n}\n"
    ));
}

#[test]
fn fold_and_debug_text() {
    let ds = vec![
        strukt("Call", vec![field("func", wrap("Box", path("Path"))), field("args", wrap("Vec", path("Ident")))]),
        strukt("Path", vec![field("id", path("Ident"))]),
    ];
    let cfg = config(&["Ident"], &[], &[]);
    let g = build_model(&ds, &cfg).unwrap();
    let fold = emit(&g, Flavor::Fold).unwrap();
    assert!(fold.starts_with(
        "pub fn fold_Call<F: Fold + ?Sized>(f: &mut F, node: Call) -> Call {\nCall {\n\
         func: Box::new(f.fold_Path(*node.func)),\n\
         args: (node.args).into_iter().map(|it| it).collect(),\n}\n}\n"
    ));
    let debug = emit(&g, Flavor::Debug).unwrap();
    assert!(debug.starts_with(
        "pub fn debug_Call(node: &Call, f: &mut Formatter) -> fmt::Result {\n\
         let mut d = f.debug_struct(\"Call\");\nd.field(\"func\", &node.func);\n\
         d.field(\"args\", &node.args);\nd.finish()\n}\n"
    ));
}

#[test]
fn leaf_like_node_gets_trivial_method() {
    let mut tok = strukt("Semi", vec![field("span", path("Span"))]);
    tok.leaf_like = true;
    let cfg = config(&["Span"], &[], &[]);
    let g = build_model(&vec![tok], &cfg).unwrap();
    assert_eq!(
        emit(&g, Flavor::Visit).unwrap(),
        "pub fn visit_Semi<V: Visit + ?Sized>(v: &mut V, node: &Semi) {\n}\n"
    );
    assert!(emit(&g, Flavor::Fold).unwrap().ends_with("{\nnode\n}\n"));
}

#[test]
fn schema_document_is_exact_and_stable() {
    let ds = binary_expr(true);
    let cfg = config(&["Lit"], &[], &[]);
    let a = export_schema(&build_model(&ds, &cfg).unwrap(), &cfg.version).unwrap();
    let b = export_schema(&build_model(&ds, &cfg).unwrap(), &cfg.version).unwrap();
    assert_eq!(a, b);
    assert_eq!(
        a,
        "{\"version\":\"1.0.0\",\"nodes\":[{\"ident\":\"Expr\",\"leaf_like\":false,\"kind\":\"enum\",\
         \"variants\":[{\"ident\":\"Lit\",\"payload\":{\"type\":{\"leaf\":\"Lit\"}}},\
         {\"ident\":\"Binary\",\"payload\":{\"fields\":[\
         {\"ident\":\"left\",\"type\":{\"box\":{\"node\":\"Expr\"}}},\
         {\"ident\":\"right\",\"type\":{\"box\":{\"node\":\"Expr\"}}}]}}]}]}\n"
    );
}

#[test]
fn unsupported_schema_entity() {
    let ds = vec![strukt("A", vec![field("x\"y", path("Ident"))])];
    let cfg = config(&["Ident"], &[], &[]);
    let g = build_model(&ds, &cfg).unwrap();
    assert_eq!(export_schema(&g, &cfg.version).err(), Some(GenError::UnsupportedSchemaEntity));
    assert_eq!(do_main(&ds, &cfg).err(), Some(GenError::UnsupportedSchemaEntity));
}

#[test]
fn dangling_model_is_an_emitter_error() {
    let g = Grammar {
        nodes: vec![Node {
            name: s("A"),
            body: Body::Struct(vec![Field { name: s("b"), ty: TypeRef::Node(3) }]),
            leaf_like: false,
        }],
        leaves: vec![],
    };
    assert_eq!(emit(&g, Flavor::Visit).err(), Some(GenError::EmitterError(0)));
    assert_eq!(export_schema(&g, &s("1")).err(), Some(GenError::UnsupportedSchemaEntity));
}

#[test]
fn full_run_produces_every_output() {
    let ds = binary_expr(true);
    let cfg = config(&["Lit"], &[], &[]);
    let out = do_main(&ds, &cfg).unwrap();
    assert!(out.schema.starts_with("{\"version\":\"1.0.0\""));
    assert!(out.visit.contains("Expr::Lit(it) => {\nv.visit_leaf(it);\n}\n"));
    assert!(out.visit_mut.starts_with("pub fn visit_mut_Expr"));
    assert!(out.fold.contains("Expr::Binary { left, right, } => Expr::Binary {\nleft: Box::new(f.fold_Expr(*left)),\n"));
    assert!(out.debug.contains("Expr::Lit(it) => {\nlet mut d = f.debug_tuple(\"Lit\");\n"));
    assert_eq!(do_main(&binary_expr(false), &cfg).err(), Some(GenError::MalformedGrammar(Malformed::UnboxedCycle)));
}

#[test]
fn error_messages() {
    assert_eq!(GenError::UnresolvedType.message(), "unresolved type expression");
    assert!(GenError::MalformedGrammar(Malformed::UnboxedCycle).message().contains("itself"));
}

#[test]
fn built_model_is_closed() {
    let ds = vec![
        strukt("Block", vec![field("stmts", wrap("Vec", path("Stmt")))]),
        enm("Stmt", vec![variant("Expr", RawPayload::Single(path("Block"))), variant("Empty", RawPayload::Unit)]),
    ];
    let cfg = config(&["Ident"], &[], &[]);
    let g = build_model(&ds, &cfg).unwrap();
    assert!(check_closed(&g));
    match &g.nodes[0].body {
        Body::Struct(fs) => match &fs[0].ty {
            TypeRef::Sequence(b) => assert!(matches!(**b, TypeRef::Node(1))),
            other => panic!("{:?}", other),
        },
        Body::Enum(_) => panic!("expected a struct"),
    }
}

#[test]
fn rebuilder_keeps_each_variant() {
    let ds = binary_expr(true);
    let cfg = config(&["Lit"], &[], &[]);
    let g = build_model(&ds, &cfg).unwrap();
    let fold = emit(&g, Flavor::Fold).unwrap();
    assert!(fold.contains("Expr::Lit(it) => Expr::Lit(it),\n"));
    assert!(fold.contains(
        "Expr::Binary { left, right, } => Expr::Binary {\nleft: Box::new(f.fold_Expr(*left)),\nright: Box::new(f.fold_Expr(*right)),\n},\n"
    ));
}

#[test]
fn gated_out_reference_to_undeclared_type_fails() {
    let cfg = config(&["Ident"], &["full"], &[]);
    let in_field = vec![strukt("A", vec![gated_field("x", path("Foo"), "full")])];
    assert_eq!(
        build_err(&in_field, &cfg),
        Some(GenError::MalformedGrammar(Malformed::UnresolvedReference))
    );
    assert_eq!(
        do_main(&in_field, &cfg).err(),
        Some(GenError::MalformedGrammar(Malformed::UnresolvedReference))
    );
    let mut gated_decl = strukt("B", vec![field("y", wrap("Vec", path("Foo")))]);
    gated_decl.gate = Some(s("full"));
    let in_decl = vec![strukt("A", vec![field("id", path("Ident"))]), gated_decl];
    assert_eq!(
        build_err(&in_decl, &cfg),
        Some(GenError::MalformedGrammar(Malformed::UnresolvedReference))
    );
    let mut v = variant("Other", RawPayload::Single(path("Foo")));
    v.gate = Some(s("full"));
    let in_variant = vec![enm("E", vec![variant("Id", RawPayload::Single(path("Ident"))), v])];
    assert_eq!(
        build_err(&in_variant, &cfg),
        Some(GenError::MalformedGrammar(Malformed::UnresolvedReference))
    );
}

#[test]
fn emitter_error_names_first_dangling_node() {
    let ok = Node { name: s("A"), body: Body::Struct(vec![]), leaf_like: false };
    let bad = Node {
        name: s("B"),
        body: Body::Struct(vec![Field { name: s("c"), ty: TypeRef::Leaf(2) }]),
        leaf_like: false,
    };
    let g = Grammar { nodes: vec![ok, bad], leaves: vec![s("Ident")] };
    for fl in [Flavor::Visit, Flavor::VisitMut, Flavor::Fold, Flavor::Debug] {
        assert_eq!(emit(&g, fl).err(), Some(GenError::EmitterError(1)));
    }
}
