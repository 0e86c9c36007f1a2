use emela::ast::{FunctionType, PrimType, Type};
use emela::capability::{Capability, CapabilitySet};
use emela::names::NameMap;
use emela::typecheck::substitution::{
    infer_type_arguments, substitute_type, substitute_type_for_params, type_is_generic_placeholder,
};
use emela::types::{copy_type, same_type, show_apply, show_type};

fn param(name: &str) -> Type {
    Type::GenericParam(name.to_string())
}

fn list(of: Type) -> Type {
    Type::Apply {
        name: "List".to_string(),
        args: vec![of],
    }
}

fn arrow(from: Type, to: Type) -> Type {
    Type::Function(FunctionType {
        params: vec![from],
        ret: Box::new(to),
        effectful: true,
    })
}

fn number() -> Type {
    Type::Prim(PrimType::I32)
}

#[test]
fn shows_types() {
    assert_eq!(show_type(&Type::Prim(PrimType::String)), "Prim(String)");
    assert_eq!(show_type(&Type::Named("a\"b".to_string())), "Named(\"a\\\"b\")");
    assert_eq!(show_type(&param("T")), "GenericParam(\"T\")");
    assert_eq!(
        show_type(&list(param("T"))),
        "Apply { name: \"List\", args: [GenericParam(\"T\")] }"
    );
    assert_eq!(
        show_apply("\"Map\"", &vec!["a".to_string(), "b".to_string()]),
        "Apply { name: \"Map\", args: [a, b] }"
    );
}

#[test]
fn compares_and_copies_types() {
    let ty = arrow(list(number()), param("T"));
    assert!(same_type(&ty, &copy_type(&ty)));
    assert!(!same_type(&ty, &arrow(list(number()), param("U"))));
    assert!(!same_type(&list(number()), &Type::Named("List".to_string())));
}

#[test]
fn finds_open_parameters() {
    assert!(type_is_generic_placeholder(&param("T")));
    assert!(type_is_generic_placeholder(&list(list(param("T")))));
    assert!(type_is_generic_placeholder(&arrow(number(), param("T"))));
    assert!(!type_is_generic_placeholder(&arrow(list(number()), number())));
}

#[test]
fn inference_undoes_substitution() {
    let mut given = NameMap::new();
    given.insert("T".to_string(), number());
    given.insert("U".to_string(), list(Type::Prim(PrimType::Bool)));
    let pattern = arrow(list(param("T")), Type::Apply {
        name: "Pair".to_string(),
        args: vec![param("U"), param("T")],
    });
    let actual = substitute_type(&pattern, &given);
    let mut found = NameMap::new();
    infer_type_arguments(&pattern, &actual, &mut found);
    assert!(same_type(found.get("T").unwrap(), &number()));
    assert!(same_type(&substitute_type(&pattern, &found), &actual));
}

#[test]
fn the_first_type_found_stays() {
    let pattern = Type::Apply {
        name: "Pair".to_string(),
        args: vec![param("T"), param("T")],
    };
    let actual = Type::Apply {
        name: "Pair".to_string(),
        args: vec![number(), Type::Prim(PrimType::Unit)],
    };
    let mut found = NameMap::new();
    infer_type_arguments(&pattern, &actual, &mut found);
    assert!(same_type(found.get("T").unwrap(), &number()));
    let mut none = NameMap::new();
    infer_type_arguments(&list(param("T")), &number(), &mut none);
    assert!(none.get("T").is_none());
}

#[test]
fn closed_types_do_not_change() {
    let mut given = NameMap::new();
    given.insert("T".to_string(), number());
    let ty = arrow(list(number()), Type::Named("T".to_string()));
    assert!(same_type(&substitute_type(&ty, &given), &ty));
}

#[test]
fn substitutes_by_position() {
    let ty = arrow(param("A"), param("B"));
    let params = vec!["A".to_string(), "B".to_string()];
    let result = substitute_type_for_params(&ty, &params, &vec![number()]);
    assert!(same_type(&result, &arrow(number(), param("B"))));
}

fn capability(rank: u32, name: &'static str) -> Capability {
    Capability { rank, name }
}

fn ranks(set: &CapabilitySet) -> Vec<u32> {
    set.to_vec().iter().map(|capability| capability.rank).collect()
}

#[test]
fn sets_are_ordered_without_repetition() {
    let mut set = CapabilitySet::from_list(&vec![
        capability(5, "E"),
        capability(1, "A"),
        capability(5, "E"),
    ]);
    assert_eq!(ranks(&set), vec![1, 5]);
    set.insert(capability(3, "C"));
    set.insert(capability(0, "O"));
    set.insert(capability(9, "Z"));
    assert_eq!(ranks(&set), vec![0, 1, 3, 5, 9]);
    assert!(set.contains(capability(3, "C")));
    assert!(!set.contains(capability(4, "D")));
}

#[test]
fn unions_hold_both_sets() {
    let mut set = CapabilitySet::from_list(&vec![capability(2, "B"), capability(4, "D")]);
    let more = CapabilitySet::from_list(&vec![capability(3, "C"), capability(4, "D")]);
    set.extend(&more);
    assert_eq!(ranks(&set), vec![2, 3, 4]);
    assert!(more.is_subset(&set));
    assert!(!set.is_subset(&more));
    assert_eq!(set.missing(&more), vec!["B"]);
    assert!(more.missing(&set).is_empty());
    assert!(CapabilitySet::new().is_empty());
    assert_eq!(ranks(&set.copy()), ranks(&set));
}
