use systeroid::tree::{Tree, TreeNode};

fn leaf(value: &str) -> TreeNode {
    TreeNode {
        value: String::from(value),
        children: Vec::new(),
    }
}

fn node(value: &str, children: Vec<TreeNode>) -> TreeNode {
    TreeNode {
        value: String::from(value),
        children,
    }
}

fn lines(values: &[&str]) -> Vec<String> {
    values.iter().map(|v| String::from(*v)).collect()
}

#[test]
fn test_tree_creation1() {
    let input = lines(&["a", "a/b", "a/b/c/d", "a/b/e"]);
    let e = leaf("e");
    let d = leaf("d");
    let c = node("c", vec![d]);
    let b = node("b", vec![c, e]);
    let expected_tree = node("a", vec![b]);

    let tree = Tree::from_input(&input, '/');
    assert_eq!(1, tree.nodes.len());
    assert_eq!(expected_tree, tree.nodes[0]);
}

#[test]
fn test_tree_creation2() {
    let input = lines(&["a", "a/b/e", "a/b", "a/b/c/d"]);
    let e = leaf("e");
    let d = leaf("d");
    let c = node("c", vec![d]);
    let b = node("b", vec![e, c]);
    let expected_tree = node("a", vec![b]);

    let tree = Tree::from_input(&input, '/');
    assert_eq!(1, tree.nodes.len());
    assert_eq!(expected_tree, tree.nodes[0]);
}

#[test]
fn test_trees_creation() {
    let input = lines(&["a", "a/b", "c/d"]);
    let d = leaf("d");
    let c = node("c", vec![d]);
    let b = leaf("b");
    let a = node("a", vec![b]);

    let tree = Tree::from_input(&input, '/');
    assert_eq!(2, tree.nodes.len());
    assert_eq!(a, tree.nodes[0]);
    assert_eq!(c, tree.nodes[1]);
}

#[test]
fn test_tree_output() {
    let input = lines(&["a", "a/b/e", "a/b", "a/b/c/d"]);
    let tree = Tree::from_input(&input, '/');
    let mut output = String::new();
    tree.print(&mut output);

    let expected_output = "\
a
└── b
    ├── e
    └── c
        └── d\n";

    assert_eq!(expected_output, output);
}

#[test]
fn test_print_line() {
    let value = String::from("abc\ndef");

    let mut output = String::new();
    node(&value, Vec::new()).print(&mut output, &mut Vec::new());
    assert_eq!("abc\ndef\n", output);

    let mut output = String::new();
    node(&value, Vec::new()).print(&mut output, &mut vec![true, false, true]);
    assert_eq!("    │   └── abc\ndef\n", output);

    let mut output = String::new();
    node(&value, Vec::new()).print(&mut output, &mut vec![true, false, false]);
    assert_eq!("    │   ├── abc\ndef\n", output);
}

#[test]
fn test_tree_add() {
    let mut root = node("", Vec::new());
    root.add(&lines(&["x", "y"]), 0);
    root.add(&lines(&["x", "z"]), 0);
    let expected = node("x", vec![leaf("y"), leaf("z")]);
    assert_eq!(1, root.children.len());
    assert_eq!(expected, root.children[0]);

    let tree = Tree::new(root.children);
    assert_eq!(1, tree.nodes.len());
}
