use azalea::brigadier::{Argument, ArgumentBuilder, ArgumentBuilderType, CommandNode, Literal};

fn literal(word: &str) -> ArgumentBuilder {
    ArgumentBuilder::new(ArgumentBuilderType::Literal(Literal { value: word.to_string() }))
}

fn argument(name: &str, parser: u32) -> ArgumentBuilder {
    ArgumentBuilder::new(ArgumentBuilderType::Argument(Argument { name: name.to_string(), parser }))
}

fn names(node: &CommandNode) -> Vec<String> {
    node.children
        .iter()
        .map(|child| match &child.value {
            ArgumentBuilderType::Literal(literal) => literal.value.clone(),
            ArgumentBuilderType::Argument(argument) => argument.name.clone(),
        })
        .collect()
}

#[test]
fn new_builder_is_bare() {
    let builder = literal("foo");
    assert!(builder.arguments.children.is_empty());
    assert_eq!(builder.command, None);
    assert_eq!(builder.requirement, None);
    assert_eq!(builder.target, None);
    assert_eq!(builder.modifier, None);
    assert!(!builder.forks);
    assert!(builder.can_forward());
    let node = builder.build();
    assert_eq!(node.value, ArgumentBuilderType::Literal(Literal { value: "foo".to_string() }));
    assert!(node.children.is_empty());
    assert_eq!((node.command, node.requirement, node.redirect, node.modifier, node.forks), (None, None, None, None, false));
}

#[test]
fn builder_builds_its_options() {
    let node = literal("foo").executes(3).requires_that(4).build();
    assert_eq!(node.command, Some(3));
    assert_eq!(node.requirement, Some(4));
    let node = literal("foo").redirect(9).build();
    assert_eq!((node.redirect, node.modifier, node.forks), (Some(9), None, false));
    let node = literal("foo").fork(9, 2).build();
    assert_eq!((node.redirect, node.modifier, node.forks), (Some(9), Some(2), true));
    let node = literal("foo").forward(1, Some(5), false).build();
    assert_eq!((node.redirect, node.modifier, node.forks), (Some(1), Some(5), false));
}

#[test]
fn children_keep_their_order() {
    let node = literal("root")
        .then(literal("b"))
        .then(argument("a", 1))
        .then(literal("c").executes(7))
        .build();
    assert_eq!(names(&node), vec!["b", "a", "c"]);
    assert_eq!(node.children[2].command, Some(7));
    assert_eq!(
        node.children[1].value,
        ArgumentBuilderType::Argument(Argument { name: "a".to_string(), parser: 1 })
    );
}

#[test]
fn child_with_a_known_name_is_merged() {
    let builder = literal("root")
        .then(literal("bar").executes(1).then(literal("x")))
        .then(literal("other"))
        .then(literal("bar").then(literal("y").executes(2)).then(literal("x").executes(3)));
    assert!(!builder.can_forward());
    let node = builder.build();
    assert_eq!(names(&node), vec!["bar", "other"]);
    let bar = &node.children[0];
    // the command stays where the second node brings none
    assert_eq!(bar.command, Some(1));
    assert_eq!(names(bar), vec!["x", "y"]);
    assert_eq!(bar.children[0].command, Some(3));
    assert_eq!(bar.children[1].command, Some(2));
    // a second command takes the place of the first
    let node = literal("root")
        .then(literal("bar").executes(1))
        .then(literal("bar").executes(2).requires_that(6))
        .build();
    assert_eq!(node.children.len(), 1);
    assert_eq!(node.children[0].command, Some(2));
    assert_eq!(node.children[0].requirement, None);
}

#[test]
fn literal_and_argument_share_their_names() {
    let node = literal("root").then(literal("n").executes(1)).then(argument("n", 4).executes(2)).build();
    assert_eq!(node.children.len(), 1);
    assert_eq!(node.children[0].value, ArgumentBuilderType::Literal(Literal { value: "n".to_string() }));
    assert_eq!(node.children[0].command, Some(2));
}

#[test]
fn built_nodes_can_be_added() {
    let built = literal("sub").then(literal("leaf")).build();
    let mut parent = CommandNode::new(ArgumentBuilderType::Literal(Literal { value: "p".to_string() }));
    parent.add_child(built);
    parent.add_children(vec![literal("sub").then(literal("leaf2")).build(), literal("z").build()]);
    assert_eq!(names(&parent), vec!["sub", "z"]);
    assert_eq!(names(&parent.children[0]), vec!["leaf", "leaf2"]);
    let node = literal("root").then_built(parent).build();
    assert_eq!(names(&node), vec!["p"]);
    assert_eq!(names(&node.children[0]), vec!["sub", "z"]);
    assert!(literal("a").arguments.value.same_name(&argument("a", 0).arguments.value));
    assert!(!literal("a").arguments.value.same_name(&literal("b").arguments.value));
}
