use macro_kit::generics::{
    bound_target, find_parameter, Argument, Arguments, BoundTarget, Scan, Segment, TypePath,
};

fn seg(name: &str) -> Segment {
    Segment { ident: name.to_string(), arguments: Arguments::Absent }
}

fn seg_with(name: &str, args: Vec<Argument>) -> Segment {
    Segment { ident: name.to_string(), arguments: Arguments::AngleBracketed(args) }
}

fn path(segments: Vec<Segment>) -> TypePath {
    TypePath { segments }
}

fn arg(segments: Vec<Segment>) -> Argument {
    Argument::Path(path(segments))
}

fn find(p: &TypePath, name: &str) -> Scan {
    find_parameter(p, &name.to_string())
}

#[test]
fn parameter_itself_is_found_at_the_root() {
    assert_eq!(find(&path(vec![seg("T")]), "T"), Scan::Found(vec![]));
    assert_eq!(find(&path(vec![seg("T"), seg("Value")]), "T"), Scan::Found(vec![]));
}

#[test]
fn parameter_inside_arguments_is_found() {
    let boxed = path(vec![seg_with("Box", vec![arg(vec![seg_with("Vec", vec![arg(vec![seg("T")])])])])]);
    assert_eq!(find(&boxed, "T"), Scan::Found(vec![0, 0, 0, 0]));
    let map = path(vec![
        seg("std"),
        seg("collections"),
        seg_with("HashMap", vec![arg(vec![seg("K")]), Argument::Other, arg(vec![seg("T"), seg("Value")])]),
    ]);
    assert_eq!(find(&map, "T"), Scan::Found(vec![2, 2]));
    assert_eq!(find(&map, "K"), Scan::Found(vec![2, 0]));
}

#[test]
fn first_occurrence_wins() {
    let pair = path(vec![seg_with(
        "Pair",
        vec![arg(vec![seg_with("Vec", vec![arg(vec![seg("U")])])]), arg(vec![seg("T")]), arg(vec![seg("T")])],
    )]);
    assert_eq!(find(&pair, "T"), Scan::Found(vec![0, 1]));
    assert_eq!(find(&pair, "U"), Scan::Found(vec![0, 0, 0, 0]));
}

#[test]
fn other_names_are_absent() {
    assert_eq!(find(&path(vec![]), "T"), Scan::Absent);
    assert_eq!(find(&path(vec![seg("String")]), "T"), Scan::Absent);
    assert_eq!(find(&path(vec![seg("a"), seg("T")]), "T"), Scan::Absent);
    let nested = path(vec![seg_with(
        "NonNull",
        vec![arg(vec![seg_with("Vec", vec![arg(vec![seg_with("HashMap", vec![arg(vec![seg("K")]), arg(vec![seg("A")])])])])])],
    )]);
    assert_eq!(find(&nested, "T"), Scan::Absent);
    let lifetimes = path(vec![seg_with("Cow", vec![Argument::Other, Argument::Other])]);
    assert_eq!(find(&lifetimes, "T"), Scan::Absent);
}

#[test]
fn phantom_data_hides_what_it_holds() {
    let phantom = path(vec![seg_with("PhantomData", vec![arg(vec![seg("T")])])]);
    assert_eq!(find(&phantom, "T"), Scan::Absent);
    let qualified = path(vec![seg("std"), seg("marker"), seg_with("PhantomData", vec![arg(vec![seg("T")])])]);
    assert_eq!(find(&qualified, "T"), Scan::Absent);
    let inside = path(vec![seg_with(
        "Vec",
        vec![arg(vec![seg_with("PhantomData", vec![arg(vec![seg_with("Box", vec![arg(vec![seg("T")])])])])])],
    )]);
    assert_eq!(find(&inside, "T"), Scan::Absent);
    let beside = path(vec![seg_with(
        "Pair",
        vec![arg(vec![seg_with("PhantomData", vec![arg(vec![seg("T")])])]), arg(vec![seg("T")])],
    )]);
    assert_eq!(find(&beside, "T"), Scan::Found(vec![0, 1]));
    let named = path(vec![seg("T"), seg("PhantomData")]);
    assert_eq!(find(&named, "T"), Scan::Absent);
}

#[test]
fn parentheses_stop_the_scan() {
    let call = path(vec![Segment { ident: "Fn".to_string(), arguments: Arguments::Parenthesized }]);
    assert_eq!(find(&call, "T"), Scan::Unsupported);
    let after = path(vec![seg_with(
        "Pair",
        vec![arg(vec![seg("T")]), arg(vec![Segment { ident: "Fn".to_string(), arguments: Arguments::Parenthesized }])],
    )]);
    assert_eq!(find(&after, "T"), Scan::Found(vec![0, 0]));
    let before = path(vec![seg_with(
        "Pair",
        vec![arg(vec![Segment { ident: "Fn".to_string(), arguments: Arguments::Parenthesized }]), arg(vec![seg("T")])],
    )]);
    assert_eq!(find(&before, "T"), Scan::Unsupported);
    let own = path(vec![Segment { ident: "T".to_string(), arguments: Arguments::Parenthesized }]);
    assert_eq!(find(&own, "T"), Scan::Found(vec![]));
}

#[test]
fn bound_goes_on_the_parameter_or_on_its_associated_type() {
    let own = path(vec![seg("T")]);
    assert_eq!(bound_target(&own, &vec![]), Some(BoundTarget::Parameter));
    let value = path(vec![seg("T"), seg("Value")]);
    assert_eq!(bound_target(&value, &vec![]), Some(BoundTarget::AssociatedType));
    let nested = path(vec![
        seg("std"),
        seg_with("Vec", vec![Argument::Other, arg(vec![seg("T"), seg("Value")]), arg(vec![seg("T")])]),
    ]);
    assert_eq!(bound_target(&nested, &vec![1, 1]), Some(BoundTarget::AssociatedType));
    assert_eq!(bound_target(&nested, &vec![1, 2]), Some(BoundTarget::Parameter));
    assert_eq!(find(&nested, "T"), Scan::Found(vec![1, 1]));
}

#[test]
fn route_that_leaves_the_tree_has_no_target() {
    let nested = path(vec![seg("std"), seg_with("Vec", vec![Argument::Other, arg(vec![seg("T")])])]);
    assert_eq!(bound_target(&nested, &vec![1]), None);
    assert_eq!(bound_target(&nested, &vec![0, 0]), None);
    assert_eq!(bound_target(&nested, &vec![1, 0]), None);
    assert_eq!(bound_target(&nested, &vec![1, 2]), None);
    assert_eq!(bound_target(&nested, &vec![2, 0]), None);
    assert_eq!(bound_target(&nested, &vec![1, 1, 0]), None);
    assert_eq!(bound_target(&nested, &vec![1, 1, 0, 0]), None);
    assert_eq!(bound_target(&path(vec![]), &vec![]), Some(BoundTarget::Parameter));
}
