use emela::ast::{
    BinaryOp, Block, BlockItem, EnumDecl, EnumVariant, Expr, Function, FunctionType, Import,
    ImportOrigin, MatchArm, Param, Pattern, PrimType, Program, StructDecl, StructField,
    TopLevelItem, Type,
};
use emela::capability::{Capability, CapabilitySet};
use emela::names::NameMap;
use emela::platform::{ExternFunction, Externs, PlatformSpec};
use emela::typecheck::checker::{enum_result_type, TypeChecker, VariantInfo};
use emela::typecheck::program::CheckMode;
use emela::typecheck::registration::format_import_path;
use emela::typecheck::typed::TypedProgram;
use emela::types::{same_type, show_type};

const READ: Capability = Capability { rank: 1, name: "ReadFile" };
const WRITE: Capability = Capability { rank: 2, name: "WriteFile" };
const CLOCK: Capability = Capability { rank: 0, name: "Clock" };

fn i32_type() -> Type {
    Type::Prim(PrimType::I32)
}

fn bool_type() -> Type {
    Type::Prim(PrimType::Bool)
}

fn unit_type() -> Type {
    Type::Prim(PrimType::Unit)
}

fn named(name: &str) -> Type {
    Type::Named(name.to_string())
}

fn result_of(ok: Type, err: Type) -> Type {
    Type::Apply {
        name: "Result".to_string(),
        args: vec![ok, err],
    }
}

fn arrow(params: Vec<Type>, ret: Type, effectful: bool) -> Type {
    Type::Function(FunctionType {
        params,
        ret: Box::new(ret),
        effectful,
    })
}

fn var(name: &str) -> Expr {
    Expr::Var(name.to_string())
}

fn call(name: &str, args: Vec<Expr>) -> Expr {
    Expr::Call {
        name: name.to_string(),
        args,
    }
}

fn method(receiver: Expr, name: &str, args: Vec<Expr>) -> Expr {
    Expr::MethodCall {
        receiver: Box::new(receiver),
        name: name.to_string(),
        args,
    }
}

fn binary(op: BinaryOp, left: Expr, right: Expr) -> Expr {
    Expr::Binary {
        op,
        left: Box::new(left),
        right: Box::new(right),
    }
}

fn matching(scrutinee: Expr, arms: Vec<(Pattern, Expr)>) -> Expr {
    Expr::Match {
        scrutinee: Box::new(scrutinee),
        arms: arms
            .into_iter()
            .map(|(pattern, expr)| MatchArm { pattern, expr })
            .collect(),
    }
}

fn variant(name: &str, payload: Option<Pattern>) -> Pattern {
    Pattern::Variant {
        name: name.to_string(),
        payload: payload.map(Box::new),
    }
}

fn binding(name: &str, ty: Option<Type>, expr: Expr) -> BlockItem {
    BlockItem::Binding {
        name: name.to_string(),
        ty,
        expr,
    }
}

fn block(items: Vec<BlockItem>) -> Block {
    Block { items }
}

fn function(name: &str, params: Vec<(&str, Type)>, ret: Type, body: Vec<BlockItem>) -> Function {
    Function {
        name: name.to_string(),
        params: params
            .into_iter()
            .map(|(name, ty)| Param {
                name: name.to_string(),
                ty: Some(ty),
            })
            .collect(),
        required: None,
        return_annotation: Some(ret),
        body: block(body),
    }
}

fn simple(name: &str, ret: Type, body: Expr) -> TopLevelItem {
    TopLevelItem::Function(function(name, vec![], ret, vec![BlockItem::Expr(body)]))
}

fn requiring(name: &str, required: Vec<Capability>, body: Vec<BlockItem>) -> TopLevelItem {
    let mut function = function(name, vec![], unit_type(), body);
    function.required = Some(required);
    TopLevelItem::Function(function)
}

fn import(origin: ImportOrigin, path: &[&str], name: &str) -> TopLevelItem {
    TopLevelItem::Import(Import {
        origin,
        path: path.iter().map(|part| part.to_string()).collect(),
        name: name.to_string(),
    })
}

fn structure(name: &str, type_params: &[&str], field: &str, ty: Type) -> TopLevelItem {
    TopLevelItem::Struct(StructDecl {
        name: name.to_string(),
        type_params: type_params.iter().map(|param| param.to_string()).collect(),
        field: StructField {
            name: field.to_string(),
            ty,
        },
    })
}

fn enumeration(name: &str, type_params: &[&str], variants: Vec<(&str, Option<Type>)>) -> TopLevelItem {
    TopLevelItem::Enum(EnumDecl {
        name: name.to_string(),
        type_params: type_params.iter().map(|param| param.to_string()).collect(),
        variants: variants
            .into_iter()
            .map(|(name, payload)| EnumVariant {
                name: name.to_string(),
                payload,
            })
            .collect(),
    })
}

fn platform() -> PlatformSpec {
    let write = ExternFunction {
        path: vec!["platform".to_string(), "io".to_string()],
        name: "write!".to_string(),
        params: vec![Type::Prim(PrimType::String)],
        ret: result_of(unit_type(), named("PlatformError")),
        effectful: true,
        capabilities: vec![WRITE, CLOCK, WRITE],
    };
    let double = ExternFunction {
        path: vec!["math".to_string()],
        name: "double".to_string(),
        params: vec![i32_type()],
        ret: i32_type(),
        effectful: false,
        capabilities: vec![],
    };
    PlatformSpec {
        name: "test".to_string(),
        externs: Externs {
            functions: vec![write, double],
        },
        provided_capabilities: CapabilitySet::from_list(&vec![CLOCK, READ]),
    }
}

fn check_mode(items: Vec<TopLevelItem>, mode: CheckMode) -> Result<TypedProgram, String> {
    let program = Program { items };
    let platform = platform();
    TypeChecker::new_with_mode(&program, &platform, mode)
        .check()
        .map_err(|error| error.to_string())
}

fn check(items: Vec<TopLevelItem>) -> Result<TypedProgram, String> {
    check_mode(items, CheckMode::Library)
}

fn error_of(items: Vec<TopLevelItem>) -> String {
    check(items).unwrap_err()
}

/// The error of a function of the given result type with the expression as its body.
fn body_error(ret: Type, body: Expr) -> String {
    error_of(vec![simple("f", ret, body)])
}

fn accepts(ret: Type, body: Expr) {
    check(vec![simple("f", ret, body)]).unwrap();
}

#[test]
fn reports_annotated_types() {
    let typed = check(vec![
        TopLevelItem::Function(function(
            "add",
            vec![("x", i32_type()), ("y", i32_type())],
            i32_type(),
            vec![BlockItem::Expr(binary(BinaryOp::Add, var("x"), var("y")))],
        )),
        simple("yes", bool_type(), Expr::Bool(true)),
    ])
    .unwrap();
    assert_eq!(typed.functions.len(), 2);
    assert_eq!(typed.functions[0].name, "add");
    assert!(same_type(&typed.functions[0].params[1], &i32_type()));
    assert!(same_type(&typed.functions[0].ret, &i32_type()));
    assert!(!typed.functions[0].effectful);
    assert!(typed.functions[1].capabilities.is_empty());
}

#[test]
fn operators_take_their_types() {
    accepts(bool_type(), binary(BinaryOp::Lt, Expr::Int(1), Expr::Int(2)));
    accepts(bool_type(), binary(BinaryOp::Eq, Expr::Bool(true), Expr::Bool(false)));
    accepts(i32_type(), method(Expr::Int(1), "mul", vec![Expr::Int(2)]));
    assert_eq!(
        body_error(i32_type(), binary(BinaryOp::Sub, Expr::Int(1), Expr::Bool(true))),
        "type mismatch: expected Prim(Bool), got Prim(I32)"
    );
    assert_eq!(
        body_error(bool_type(), binary(BinaryOp::Eq, Expr::Unit, Expr::Unit)),
        "type Unit does not implement method `eq`"
    );
    assert_eq!(
        body_error(
            bool_type(),
            binary(
                BinaryOp::Eq,
                Expr::String("a".to_string()),
                Expr::String("a".to_string())
            )
        ),
        "type Prim(String) does not implement method `eq`"
    );
    assert_eq!(
        body_error(bool_type(), method(Expr::Int(1), "show", vec![])),
        "Prim(I32) does not implement method `show`"
    );
    assert_eq!(
        body_error(bool_type(), method(Expr::Int(1), "eq", vec![])),
        "method `eq` expects 1 argument(s), got 0"
    );
    assert_eq!(
        body_error(bool_type(), method(Expr::Bool(true), "lt", vec![])),
        "type mismatch: expected Prim(Bool), got Prim(I32)"
    );
}

#[test]
fn calls_take_the_declared_types() {
    let inc = || {
        TopLevelItem::Function(function(
            "inc",
            vec![("x", i32_type())],
            i32_type(),
            vec![BlockItem::Expr(binary(BinaryOp::Add, var("x"), Expr::Int(1)))],
        ))
    };
    check(vec![inc(), simple("f", i32_type(), call("inc", vec![Expr::Int(3)]))]).unwrap();
    assert_eq!(
        error_of(vec![inc(), simple("f", i32_type(), call("inc", vec![]))]),
        "function `inc` expects 1 argument(s), got 0"
    );
    assert_eq!(
        error_of(vec![inc(), simple("f", i32_type(), call("inc", vec![Expr::Unit]))]),
        "type mismatch: expected Prim(Unit), got Prim(I32)"
    );
    assert_eq!(body_error(i32_type(), call("g", vec![])), "unknown function `g`");
    assert_eq!(body_error(i32_type(), var("g")), "unknown local binding `g`");
}

#[test]
fn functions_are_values() {
    let ty = arrow(vec![i32_type()], i32_type(), false);
    let apply = |arg: Expr| {
        vec![
            TopLevelItem::Function(function(
                "inc",
                vec![("x", i32_type())],
                i32_type(),
                vec![BlockItem::Expr(var("x"))],
            )),
            simple(
                "f",
                i32_type(),
                Expr::Block(block(vec![
                    binding(
                        "g",
                        Some(arrow(vec![i32_type()], i32_type(), false)),
                        var("inc"),
                    ),
                    BlockItem::Expr(call("g", vec![arg])),
                ])),
            ),
        ]
    };
    check(apply(Expr::Int(1))).unwrap();
    assert_eq!(
        error_of(apply(Expr::Bool(true))),
        "type mismatch: expected Prim(Bool), got Prim(I32)"
    );
    assert_eq!(
        show_type(&ty),
        "Function(FunctionType { params: [Prim(I32)], ret: Prim(I32), effectful: false })"
    );
    let calling = |ty: Type, args: Vec<Expr>| {
        vec![TopLevelItem::Function(function(
            "f",
            vec![("g", ty)],
            i32_type(),
            vec![BlockItem::Expr(call("g", args))],
        ))]
    };
    assert_eq!(error_of(calling(i32_type(), vec![])), "`g` is not callable");
    assert_eq!(
        error_of(calling(arrow(vec![], i32_type(), false), vec![Expr::Unit])),
        "function value `g` expects 0 argument(s), got 1"
    );
    assert_eq!(
        error_of(calling(arrow(vec![], i32_type(), true), vec![])),
        "pure function `f` cannot contain unhandled effects"
    );
}

#[test]
fn structs_have_one_field() {
    let point = || structure("Point", &[], "x", i32_type());
    let literal = |name: &str, field: &str, value: Expr| Expr::StructLiteral {
        name: name.to_string(),
        field: field.to_string(),
        value: Box::new(value),
    };
    let access = |receiver: Expr, field: &str| Expr::FieldAccess {
        receiver: Box::new(receiver),
        field: field.to_string(),
    };
    check(vec![
        point(),
        simple("f", i32_type(), access(literal("Point", "x", Expr::Int(1)), "x")),
        simple("g", named("Point"), literal("Point", "x", Expr::Int(1))),
    ])
    .unwrap();
    assert_eq!(
        error_of(vec![point(), simple("f", i32_type(), literal("Line", "x", Expr::Int(1)))]),
        "unknown struct `Line`"
    );
    assert_eq!(
        error_of(vec![point(), simple("f", i32_type(), literal("Point", "y", Expr::Int(1)))]),
        "struct `Point` does not have field `y`"
    );
    assert_eq!(
        error_of(vec![
            point(),
            simple("f", i32_type(), access(literal("Point", "x", Expr::Int(1)), "z"))
        ]),
        "struct `Point` does not have field `z`"
    );
    assert_eq!(
        error_of(vec![point(), simple("f", i32_type(), literal("Point", "x", Expr::Unit))]),
        "type mismatch: expected Prim(Unit), got Prim(I32)"
    );
    assert_eq!(
        body_error(i32_type(), access(Expr::Int(1), "x")),
        "type Prim(I32) does not have field `x`"
    );
    assert_eq!(
        error_of(vec![
            enumeration("Color", &[], vec![("Red", None)]),
            simple("f", i32_type(), access(var("Red"), "x"))
        ]),
        "type `Color` has no fields"
    );
}

#[test]
fn enums_are_built_and_matched() {
    let shape = || {
        enumeration(
            "Shape",
            &[],
            vec![("Dot", None), ("Line", Some(i32_type()))],
        )
    };
    check(vec![
        shape(),
        simple(
            "f",
            i32_type(),
            matching(
                call("Line", vec![Expr::Int(2)]),
                vec![
                    (variant("Dot", None), Expr::Int(0)),
                    (
                        variant("Line", Some(Pattern::Var("n".to_string()))),
                        var("n"),
                    ),
                ],
            ),
        ),
    ])
    .unwrap();
    let one = |pattern: Pattern| {
        error_of(vec![
            shape(),
            simple("f", i32_type(), matching(var("Dot"), vec![(pattern, Expr::Int(0))])),
        ])
    };
    assert_eq!(one(variant("Dot", None)), "match expression is not exhaustive");
    assert_eq!(
        one(variant("Dot", Some(Pattern::Wildcard))),
        "enum variant `Dot` pattern does not take a payload"
    );
    assert_eq!(one(variant("Line", None)), "enum variant `Line` pattern requires a payload");
    assert_eq!(one(variant("Blob", None)), "unknown enum variant `Blob`");
    assert_eq!(
        one(Pattern::Int(1)),
        "type mismatch: expected Named(\"Shape\"), got Prim(I32)"
    );
    assert_eq!(
        one(variant("Ok", Some(Pattern::Wildcard))),
        "type mismatch: expected generic enum `Result`, got Named(\"Shape\")"
    );
    assert_eq!(
        error_of(vec![shape(), simple("f", named("Shape"), var("Line"))]),
        "enum variant `Line` requires a payload"
    );
    assert_eq!(
        error_of(vec![shape(), simple("f", named("Shape"), call("Dot", vec![]))]),
        "enum variant `Dot` does not take a payload"
    );
    assert_eq!(
        error_of(vec![shape(), simple("f", named("Shape"), call("Line", vec![]))]),
        "enum variant `Line` expects 1 payload argument, got 0"
    );
    assert_eq!(
        error_of(vec![
            shape(),
            simple("f", named("Shape"), call("Line", vec![Expr::Unit]))
        ]),
        "type mismatch: expected Prim(Unit), got Prim(I32)"
    );
}

#[test]
fn results_are_generic() {
    let ty = || result_of(i32_type(), named("PlatformError"));
    check(vec![TopLevelItem::Function(function(
        "f",
        vec![("r", ty())],
        i32_type(),
        vec![BlockItem::Expr(matching(
            var("r"),
            vec![
                (variant("Ok", Some(Pattern::Var("n".to_string()))), var("n")),
                (variant("Err", Some(variant("Unknown", None))), Expr::Int(1)),
                (variant("Err", Some(Pattern::Wildcard)), Expr::Int(2)),
            ],
        ))],
    ))])
    .unwrap();
    accepts(ty(), call("Ok", vec![Expr::Int(1)]));
    accepts(ty(), call("Err", vec![var("Unavailable")]));
    let pair = || {
        enumeration(
            "Maybe",
            &["T"],
            vec![("Some", Some(Type::GenericParam("T".to_string()))), ("None", None)],
        )
    };
    assert_eq!(
        error_of(vec![
            pair(),
            TopLevelItem::Function(function(
                "f",
                vec![("r", ty())],
                i32_type(),
                vec![BlockItem::Expr(matching(
                    var("r"),
                    vec![(variant("Some", Some(Pattern::Wildcard)), Expr::Int(0))],
                ))],
            )),
        ]),
        "type mismatch: expected Apply { name: \"Maybe\", args: [Prim(I32), Named(\"PlatformError\")] }, \
         got Apply { name: \"Result\", args: [Prim(I32), Named(\"PlatformError\")] }"
    );
}

#[test]
fn an_open_parameter_takes_any_type() {
    accepts(bool_type(), call("Ok", vec![Expr::Int(1)]));
}

#[test]
fn matches_have_arms_of_one_type() {
    assert_eq!(
        body_error(i32_type(), matching(Expr::Int(1), vec![])),
        "match expression must have at least one arm"
    );
    assert_eq!(
        body_error(
            i32_type(),
            matching(
                Expr::Bool(true),
                vec![
                    (Pattern::Bool(true), Expr::Int(1)),
                    (Pattern::Bool(false), Expr::Unit)
                ]
            )
        ),
        "type mismatch: expected Prim(I32), got Prim(Unit)"
    );
    accepts(
        i32_type(),
        matching(Expr::Unit, vec![(Pattern::Unit, Expr::Int(1))]),
    );
    accepts(
        i32_type(),
        matching(
            Expr::String("s".to_string()),
            vec![(Pattern::Var("s".to_string()), Expr::Int(1))],
        ),
    );
    assert_eq!(
        error_of(vec![TopLevelItem::Function(function(
            "f",
            vec![("x", i32_type())],
            i32_type(),
            vec![BlockItem::Expr(matching(
                Expr::Int(1),
                vec![(Pattern::Var("x".to_string()), Expr::Int(1))]
            ))],
        ))]),
        "pattern binding `x` shadows an existing binding"
    );
}

#[test]
fn bindings_are_annotated() {
    let body = |items: Vec<BlockItem>| Expr::Block(block(items));
    accepts(
        i32_type(),
        body(vec![
            binding("x", Some(i32_type()), Expr::Int(1)),
            BlockItem::Expr(var("x")),
        ]),
    );
    accepts(unit_type(), body(vec![binding("x", Some(i32_type()), Expr::Int(1))]));
    assert_eq!(
        body_error(unit_type(), body(vec![binding("x", None, Expr::Int(1))])),
        "binding `x` must have a type annotation"
    );
    assert_eq!(
        body_error(unit_type(), body(vec![binding("x", Some(named("X")), Expr::Int(1))])),
        "unknown type `X`"
    );
    assert_eq!(
        body_error(unit_type(), body(vec![binding("x", Some(bool_type()), Expr::Int(1))])),
        "type mismatch: expected Prim(I32), got Prim(Bool)"
    );
    assert_eq!(
        body_error(
            unit_type(),
            body(vec![
                binding("x", Some(i32_type()), Expr::Int(1)),
                binding("x", Some(i32_type()), Expr::Int(1))
            ])
        ),
        "duplicate binding `x` in the same block"
    );
}

#[test]
fn types_are_validated() {
    assert_eq!(
        error_of(vec![structure("S", &[], "x", Type::GenericParam("T".to_string()))]),
        "unknown type parameter `T`"
    );
    assert_eq!(
        error_of(vec![structure(
            "S",
            &[],
            "x",
            Type::Apply {
                name: "Box".to_string(),
                args: vec![]
            }
        )]),
        "unknown generic type `Box`"
    );
    assert_eq!(
        error_of(vec![structure(
            "S",
            &[],
            "x",
            Type::Apply {
                name: "Result".to_string(),
                args: vec![i32_type()]
            }
        )]),
        "generic type `Result` expects 2 type argument(s), got 1"
    );
    assert_eq!(
        error_of(vec![structure("S", &[], "x", arrow(vec![named("Y")], i32_type(), false))]),
        "unknown type `Y`"
    );
    assert_eq!(
        error_of(vec![structure("S", &["T", "T"], "x", i32_type())]),
        "duplicate type parameter `T` in struct `S`"
    );
    assert_eq!(
        error_of(vec![enumeration("E", &["A", "B", "A"], vec![("V", None)])]),
        "duplicate type parameter `A` in enum `E`"
    );
    assert_eq!(
        error_of(vec![enumeration("E", &[], vec![("V", Some(named("Z")))])]),
        "unknown type `Z`"
    );
    assert_eq!(
        error_of(vec![enumeration("E", &[], vec![])]),
        "enum `E` must declare at least one variant"
    );
    assert_eq!(
        error_of(vec![
            structure("S", &[], "x", i32_type()),
            enumeration("S", &[], vec![("V", None)])
        ]),
        "duplicate type `S`"
    );
    assert_eq!(
        error_of(vec![enumeration("E", &[], vec![("Ok", None)])]),
        "duplicate enum variant `Ok`"
    );
    check(vec![
        structure("Pair", &["A"], "x", Type::GenericParam("A".to_string())),
        structure(
            "Use",
            &[],
            "y",
            Type::Apply {
                name: "Pair".to_string(),
                args: vec![named("Use")],
            },
        ),
    ])
    .unwrap();
}

#[test]
fn imports_come_from_the_platform() {
    let typed = check(vec![
        import(ImportOrigin::Stdlib, &["platform", "io"], "write!"),
        import(ImportOrigin::User, &["math"], "double"),
        simple(
            "say!",
            result_of(unit_type(), named("PlatformError")),
            call("write!", vec![Expr::String("hi".to_string())]),
        ),
        simple("four", i32_type(), call("double", vec![Expr::Int(2)])),
    ])
    .unwrap();
    assert!(typed.functions[0].effectful);
    let names: Vec<&str> = typed.functions[0].capabilities.iter().map(|c| c.name).collect();
    assert_eq!(names, vec!["Clock", "WriteFile"]);
    assert!(typed.functions[1].capabilities.is_empty());
    assert_eq!(
        error_of(vec![import(ImportOrigin::User, &["platform", "io"], "write!")]),
        "platform import `platform.io.write!` is only available to stdlib"
    );
    assert_eq!(
        error_of(vec![import(ImportOrigin::User, &["math"], "triple")]),
        "unknown external import `math.triple`"
    );
    assert_eq!(
        error_of(vec![
            import(ImportOrigin::User, &["math"], "double"),
            import(ImportOrigin::User, &["math"], "double")
        ]),
        "duplicate imported function `double`"
    );
    assert_eq!(format_import_path(&vec![], "x"), "x");
}

#[test]
fn functions_are_annotated() {
    let mut bare = function("f", vec![("x", i32_type())], i32_type(), vec![]);
    bare.params[0].ty = None;
    assert_eq!(
        error_of(vec![TopLevelItem::Function(bare)]),
        "parameter `x` in function `f` must have a type annotation"
    );
    let mut bare = function("f", vec![], i32_type(), vec![]);
    bare.return_annotation = None;
    assert_eq!(
        error_of(vec![TopLevelItem::Function(bare)]),
        "function `f` must have a return type annotation"
    );
    assert_eq!(
        error_of(vec![TopLevelItem::Function(function(
            "f",
            vec![("x", i32_type()), ("x", i32_type())],
            unit_type(),
            vec![]
        ))]),
        "duplicate parameter `x` in function `f`"
    );
    assert_eq!(
        error_of(vec![
            simple("f", unit_type(), Expr::Unit),
            simple("f", unit_type(), Expr::Unit)
        ]),
        "duplicate top-level function `f`"
    );
    assert_eq!(
        body_error(i32_type(), Expr::Unit),
        "type mismatch: expected Prim(I32), got Prim(Unit)"
    );
}

#[test]
fn effects_reach_the_callers() {
    let write = || import(ImportOrigin::Stdlib, &["platform", "io"], "write!");
    let say = || {
        BlockItem::Expr(Expr::Block(block(vec![
            binding(
                "r",
                Some(result_of(unit_type(), named("PlatformError"))),
                call("write!", vec![Expr::String("x".to_string())]),
            ),
        ])))
    };
    assert_eq!(
        error_of(vec![
            write(),
            TopLevelItem::Function(function("say", vec![], unit_type(), vec![say()]))
        ]),
        "pure function `say` cannot contain unhandled effects"
    );
    assert_eq!(
        error_of(vec![write(), requiring("say!", vec![WRITE], vec![say()])]),
        "function `say!` uses capability outside #[requires(...)]: Clock"
    );
    assert_eq!(
        error_of(vec![write(), requiring("say!", vec![], vec![say()])]),
        "function `say!` uses capability outside #[requires(...)]: Clock, WriteFile"
    );
    let typed = check(vec![
        write(),
        requiring("say!", vec![WRITE, READ, CLOCK, READ], vec![say()]),
    ])
    .unwrap();
    let ranks: Vec<u32> = typed.functions[0].capabilities.iter().map(|c| c.rank).collect();
    assert_eq!(ranks, vec![0, 1, 2]);
    assert_eq!(
        error_of(vec![requiring("f", vec![READ], vec![])]),
        "function `f` requires platform capabilities and must be marked with !"
    );
    assert!(check(vec![requiring("f", vec![], vec![])]).is_ok());
}

#[test]
fn executables_start_with_main() {
    let run = |items: Vec<TopLevelItem>| check_mode(items, CheckMode::Executable);
    assert_eq!(
        run(vec![simple("f", unit_type(), Expr::Unit)]).unwrap_err(),
        "executable program must contain exactly one top-level `main` or `main!` function"
    );
    assert_eq!(
        run(vec![
            simple("main", unit_type(), Expr::Unit),
            simple("main!", unit_type(), Expr::Unit)
        ])
        .unwrap_err(),
        "executable program must contain exactly one top-level `main` or `main!` function"
    );
    assert_eq!(
        run(vec![TopLevelItem::Function(function(
            "main",
            vec![("x", i32_type())],
            unit_type(),
            vec![]
        ))])
        .unwrap_err(),
        "`main` and `main!` must take zero parameters"
    );
    let typed = run(vec![requiring("main!", vec![CLOCK, READ], vec![])]).unwrap();
    assert_eq!(typed.functions[0].capabilities.len(), 2);
    assert_eq!(
        run(vec![requiring("main!", vec![WRITE, CLOCK], vec![])]).unwrap_err(),
        "platform `test` does not provide required capability: WriteFile"
    );
    let program = Program {
        items: vec![simple("main", unit_type(), Expr::Unit)],
    };
    let platform = platform();
    assert!(TypeChecker::new(&program, &platform).check().is_ok());
}

#[test]
fn unification_fills_open_parameters() {
    let program = Program { items: vec![] };
    let platform = platform();
    let mut checker = TypeChecker::new(&program, &platform);
    let open = checker.known(result_of(i32_type(), Type::GenericParam("E".to_string())));
    let closed = checker.known(result_of(i32_type(), bool_type()));
    assert!(checker.unify(open, closed).is_ok());
    let found = checker.resolve_known(open, "it").unwrap();
    assert!(same_type(&found, &result_of(i32_type(), bool_type())));
    let other = checker.known(unit_type());
    assert_eq!(
        checker.unify(closed, other).unwrap_err().to_string(),
        "type mismatch: expected Apply { name: \"Result\", args: [Prim(I32), Prim(Bool)] }, got Prim(Unit)"
    );
    let fresh = checker.fresh();
    assert!(checker.resolve_optional(fresh).is_none());
    assert_eq!(
        checker.resolve_known(fresh, "it").unwrap_err().to_string(),
        "could not infer it"
    );
    assert!(checker.unify(fresh, other).is_ok());
    assert_eq!(checker.find(fresh), other);
    let info = checker.info(fresh);
    assert!(!info.effectful && info.capabilities.is_empty());
}

#[test]
fn unknown_receivers_compare_by_their_argument() {
    let program = Program { items: vec![] };
    let platform = platform();
    let mut checker = TypeChecker::new(&program, &platform);
    let x = checker.fresh();
    let mut scope = NameMap::new();
    scope.insert("x".to_string(), x);
    let same = binary(BinaryOp::Eq, var("x"), Expr::Int(1));
    assert!(checker.check_expr(&same, &scope).is_ok());
    assert!(same_type(&checker.resolve_known(x, "x").unwrap(), &i32_type()));
    let y = checker.fresh();
    scope.insert("y".to_string(), y);
    let shown = method(var("y"), "show", vec![]);
    assert_eq!(
        checker.check_expr(&shown, &scope).err().unwrap().to_string(),
        "unknown type does not implement method `show`"
    );
}

#[test]
fn names_the_variants_of_enums() {
    let program = Program {
        items: vec![enumeration("Color", &[], vec![("Red", None), ("Blue", None)])],
    };
    let platform = platform();
    let mut checker = TypeChecker::new(&program, &platform);
    checker.register_types().unwrap();
    assert_eq!(checker.enum_variant_names("Result").unwrap(), vec!["Ok", "Err"]);
    assert_eq!(checker.enum_variant_names("Color").unwrap(), vec!["Red", "Blue"]);
    assert_eq!(checker.enum_variant_names("PlatformError").unwrap().len(), 5);
    assert!(checker.enum_variant_names("Shape").is_none());
    let color = VariantInfo {
        enum_name: "Color".to_string(),
        enum_type_params: vec![],
        payload: None,
    };
    assert!(same_type(&enum_result_type(&color, vec![]), &named("Color")));
    assert!(checker.pattern_type_arguments(&named("Color"), &color).unwrap().is_empty());
    assert!(checker.validate_type(&named("Color")).is_ok());
}

#[test]
fn capabilities_come_from_calls() {
    let typed = check(vec![
        import(ImportOrigin::Stdlib, &["platform", "io"], "write!"),
        requiring("tick!", vec![CLOCK, READ], vec![]),
        TopLevelItem::Function(function(
            "twice!",
            vec![],
            unit_type(),
            vec![
                BlockItem::Expr(call("tick!", vec![])),
                BlockItem::Expr(call("tick!", vec![])),
            ],
        )),
        simple("idle!", unit_type(), Expr::Unit),
        simple("again!", unit_type(), call("twice!", vec![])),
    ])
    .unwrap();
    let ranks = |k: usize| -> Vec<u32> {
        typed.functions[k].capabilities.iter().map(|c| c.rank).collect()
    };
    assert_eq!(ranks(0), vec![0, 1]);
    assert_eq!(ranks(1), vec![0, 1]);
    assert!(ranks(2).is_empty());
    assert!(ranks(3).is_empty());
}

#[test]
fn calls_of_effectful_values_are_effects() {
    let items = |name: &str, effectful: bool| {
        vec![TopLevelItem::Function(function(
            name,
            vec![("g", arrow(vec![], i32_type(), effectful))],
            i32_type(),
            vec![
                binding("h", Some(arrow(vec![], i32_type(), effectful)), var("g")),
                BlockItem::Expr(binary(BinaryOp::Add, Expr::Int(1), call("h", vec![]))),
            ],
        ))]
    };
    assert!(check(items("f!", true)).unwrap().functions[0].effectful);
    assert!(check(items("f", false)).is_ok());
    assert_eq!(
        error_of(items("f", true)),
        "pure function `f` cannot contain unhandled effects"
    );
}

#[test]
fn values_bound_by_patterns_have_effects() {
    let items = |name: &str, effectful: bool| {
        vec![
            enumeration(
                "Job",
                &[],
                vec![("Run", Some(arrow(vec![], i32_type(), effectful))), ("Idle", None)],
            ),
            TopLevelItem::Function(function(
                name,
                vec![("job", named("Job"))],
                i32_type(),
                vec![BlockItem::Expr(matching(
                    var("job"),
                    vec![
                        (
                            variant("Run", Some(Pattern::Var("g".to_string()))),
                            call("g", vec![]),
                        ),
                        (variant("Idle", None), Expr::Int(0)),
                    ],
                ))],
            )),
        ]
    };
    assert!(check(items("f!", true)).unwrap().functions[0].effectful);
    assert!(!check(items("f", false)).unwrap().functions[0].effectful);
    assert_eq!(
        error_of(items("f", true)),
        "pure function `f` cannot contain unhandled effects"
    );
}

#[test]
fn registered_variants_belong_to_their_enum() {
    let program = Program {
        items: vec![
            structure("S", &[], "x", i32_type()),
            enumeration("B", &[], vec![("Z", None), ("Y", Some(i32_type())), ("X", None)]),
            enumeration("A", &["T"], vec![("W", None)]),
        ],
    };
    let platform = platform();
    let mut checker = TypeChecker::new(&program, &platform);
    assert!(checker.register_types().is_ok());
    for name in ["Result", "PlatformError", "A", "B"] {
        let names = checker.enum_variant_names(name).unwrap();
        assert!(!names.is_empty());
        for (i, variant) in names.iter().enumerate() {
            assert!(!names[..i].contains(variant));
            assert_eq!(checker.variants.get(variant).unwrap().enum_name, name);
        }
    }
    assert_eq!(checker.enum_variant_names("B").unwrap(), vec!["Z", "Y", "X"]);
    assert!(checker.enum_variant_names("S").is_none());
}

#[test]
fn typed_programs_are_cloned() {
    let typed = check(vec![TopLevelItem::Function(function(
        "f",
        vec![("g", arrow(vec![named("PlatformError")], i32_type(), false))],
        result_of(i32_type(), bool_type()),
        vec![BlockItem::Expr(call("Ok", vec![Expr::Int(1)]))],
    ))])
    .unwrap();
    assert_eq!(format!("{:?}", typed.clone()), format!("{typed:?}"));
}
