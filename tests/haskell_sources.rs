// Runs the matcher on Haskell text parsed by tree-sitter.

use htar::{
    alias_replacement, signature_text, AliasError, Position, Range, RequestAlias, ResponseMatches,
    SyntaxNode,
};

const SIMPLE: &str = "type String = [Char]\n";

const CONCRETE: &str = "type CBool = Bool
type CChar = Char
type CInt = Int
type CString = String
type CVoid = ()
type CMaybe = Maybe String
type CList = [Int]
type C1Tuple = (Char)
type C2Tuple = (Int, Char)
type C3Tuple = (String, Char, Bool)
type CNestedList = [[Int]]
type CNestedTuple = (String, (Int, Int))
type CNestedMixed = ([Int], (Char, Bool))
type CFunction = Bool -> Int
type CFunctionList = Int -> [String]
type CFunctionTuple = (Int, Int) -> Char
type CFunctionNested = (Int -> Char) -> [Int] -> [Char]
type CFunctionMixed = (Int -> (Char, String)) -> [Int] -> [(Char, String)]
";

const GENERIC: &str = "type GTag a = a
type GMaybe a = Maybe a
type GList a = [a]
type GVoid = ()
type G1Tuple a = (a)
type G2Tuple a b = (a, b)
type G2TupleMatching a = (a, a)
type G2TupleNested a b = (b, (a, a))
type GListTuples a b = [(a, b)]
type GFunctionBin a = a -> a
type GFunctionBinMixed a b = a -> b
type GFunctionMatching a b = a -> a -> b
type GFunctionNested a b = (a -> a) -> b
type GFunctionList a b = ([a] -> a) -> b
type GFunctionTuple a b c = (a, b) -> (a -> (b, c))
type GConcreteMixed a = a -> String -> a
type GConcreteMixed2 a b = a -> (b -> Bool) -> a
";

const SCENARIO: &str = "type CInt = Int
type GTag a = (a, String)
type P a = (a, a)
";

fn point(p: tree_sitter::Point) -> Position {
    Position { row: p.row, col: p.column }
}

fn convert(node: tree_sitter::Node, field: Option<&str>, source: &str) -> SyntaxNode {
    let mut cursor = node.walk();
    let children: Vec<SyntaxNode> = node
        .named_children(&mut cursor)
        .enumerate()
        .map(|(i, c)| convert(c, node.field_name_for_named_child(i as u32), source))
        .collect();
    SyntaxNode {
        kind: node.kind().to_string(),
        field: field.unwrap_or("").to_string(),
        text: node.utf8_text(source.as_bytes()).unwrap_or("").to_string(),
        has_error: node.has_error(),
        range: Range { start: point(node.start_position()), end: point(node.end_position()) },
        children,
    }
}

fn parse(source: &str) -> Option<SyntaxNode> {
    let mut parser = tree_sitter::Parser::new();
    parser.set_language(&tree_sitter_haskell::LANGUAGE.into()).ok()?;
    let tree = parser.parse(source, None)?;
    Some(convert(tree.root_node(), None, source))
}

fn respond(source: &str, target: &str) -> Result<ResponseMatches, AliasError> {
    let sig = signature_text(target);
    let request = RequestAlias { target_type: target.to_string(), source: source.to_string() };
    alias_replacement(request, &parse(&sig), &parse(source))
}

fn names(source: &str, target: &str) -> Vec<String> {
    let response = respond(source, target).expect("the request failed");
    let mut replaced: Vec<String> = response.matches.into_iter().map(|m| m.replaced_type).collect();
    replaced.sort();
    replaced
}

fn check(source: &str, target: &str, expected: Vec<&str>) {
    let got = names(source, target);
    assert!(got == expected, "{}", format!("{:?} != {:?} for {}", got, expected, target));
}

#[test]
fn simple() {
    check(SIMPLE, "[Char]", vec!["String"]);
}

#[test]
fn simple_fail() {
    check(SIMPLE, "Int", vec![]);
}

#[test]
fn concrete_bool() {
    check(CONCRETE, "Bool", vec!["CBool"]);
}

#[test]
fn concrete_char() {
    check(CONCRETE, "Char", vec!["CChar"]);
}

#[test]
fn concrete_int() {
    check(CONCRETE, "Int", vec!["CInt"]);
}

#[test]
fn concrete_string() {
    check(CONCRETE, "String", vec!["CString"]);
}

#[test]
fn concrete_void() {
    check(CONCRETE, "()", vec!["CVoid"]);
}

#[test]
fn concrete_maybe() {
    check(CONCRETE, "Maybe String", vec!["CMaybe"]);
}

#[test]
fn concrete_list() {
    check(CONCRETE, "[Int]", vec!["CList"]);
}

#[test]
fn concrete_1tuple() {
    check(CONCRETE, "(Char)", vec!["C1Tuple"]);
}

#[test]
fn concrete_2tuple() {
    check(CONCRETE, "(Int, Char)", vec!["C2Tuple"]);
}

#[test]
fn concrete_3tuple() {
    check(CONCRETE, "(String, Char, Bool)", vec!["C3Tuple"]);
}

#[test]
fn concrete_nested_list() {
    check(CONCRETE, "[[Int]]", vec!["CNestedList"]);
}

#[test]
fn concrete_nested_tuple() {
    check(CONCRETE, "(String, (Int, Int))", vec!["CNestedTuple"]);
}

#[test]
fn concrete_nested_mixed() {
    check(CONCRETE, "([Int], (Char, Bool))", vec!["CNestedMixed"]);
}

#[test]
fn concrete_function() {
    check(CONCRETE, "Bool -> Int", vec!["CFunction"]);
}

#[test]
fn concrete_function_list() {
    check(CONCRETE, "Int -> [String]", vec!["CFunctionList"]);
}

#[test]
fn concrete_function_tuple() {
    check(CONCRETE, "(Int, Int) -> Char", vec!["CFunctionTuple"]);
}

#[test]
fn concrete_function_nested() {
    check(CONCRETE, "(Int -> Char) -> [Int] -> [Char]", vec!["CFunctionNested"]);
}

#[test]
fn concrete_function_mixed() {
    check(
        CONCRETE,
        "(Int -> (Char, String)) -> [Int] -> [(Char, String)]",
        vec!["CFunctionMixed"],
    );
}

#[test]
fn concrete_fail() {
    check(CONCRETE, "PathBuf", vec![]);
}

#[test]
fn concrete_fail_complex() {
    check(CONCRETE, "([Int], (Char, Bool, Bool))", vec![]);
}

#[test]
fn concrete_fail_nested() {
    check(CONCRETE, "[[[Int]]]", vec![]);
}

#[test]
fn concrete_fail_function_nested() {
    check(CONCRETE, "Int -> Char -> [Int] -> [Char]", vec![]);
}

#[test]
fn generic_tag() {
    check(GENERIC, "String", vec!["GTag String"]);
    check(GENERIC, "Int", vec!["GTag Int"]);
    check(GENERIC, "TestType", vec!["GTag TestType"]);
}

#[test]
fn generic_maybe() {
    check(GENERIC, "Maybe Char", vec!["GMaybe Char"]);
}

#[test]
fn generic_list() {
    check(GENERIC, "[Bool]", vec!["GList Bool"]);
    check(GENERIC, "[]", vec![]);
}

#[test]
fn generic_void() {
    check(GENERIC, "()", vec!["GVoid"]);
}

#[test]
fn generic_1tuple() {
    check(GENERIC, "(String)", vec!["G1Tuple String"]);
}

#[test]
fn generic_2tuple() {
    check(GENERIC, "(Char, Int)", vec!["G2Tuple Char Int"]);
    check(GENERIC, "(Int, Int)", vec!["G2Tuple Int Int", "G2TupleMatching Int"]);
    check(GENERIC, "(Int, (String, String))", vec!["G2TupleNested String Int"]);
}

#[test]
fn generic_list_tuples() {
    check(GENERIC, "[(Char, Bool)]", vec!["GListTuples Char Bool"]);
}

#[test]
fn generic_function_bin() {
    check(
        GENERIC,
        "String -> String",
        vec!["GFunctionBin String", "GFunctionBinMixed String String"],
    );
}

#[test]
fn generic_function_bin_mixed() {
    check(GENERIC, "String -> Int", vec!["GFunctionBinMixed String Int"]);
    check(GENERIC, "Int -> String", vec!["GFunctionBinMixed Int String"]);
}

#[test]
fn generic_function_matching() {
    check(GENERIC, "Bool -> Bool -> Char", vec!["GFunctionMatching Bool Char"]);
    check(GENERIC, "Bool -> Char -> Char", vec![]);
    check(GENERIC, "Bool -> Bool -> Bool", vec!["GFunctionMatching Bool Bool"]);
}

#[test]
fn generic_function_nested() {
    check(GENERIC, "(Char -> Char) -> Int", vec!["GFunctionNested Char Int"]);
    check(GENERIC, "(Bool -> Bool) -> Bool", vec!["GFunctionNested Bool Bool"]);
    check(GENERIC, "Bool -> (Bool -> Bool)", vec![]);
}

#[test]
fn generic_function_list() {
    check(GENERIC, "([Char] -> Char) -> Bool", vec!["GFunctionList Char Bool"]);
    check(GENERIC, "([Int] -> Int) -> Int", vec!["GFunctionList Int Int"]);
    check(GENERIC, "(Char -> [Char]) -> Int", vec![]);
}

#[test]
fn generic_function_tuple() {
    check(
        GENERIC,
        "(Char, Int) -> (Char -> (Int, String))",
        vec!["GFunctionTuple Char Int String"],
    );
    check(
        GENERIC,
        "(Bool, Bool) -> (Bool -> (Bool, Bool))",
        vec!["GFunctionTuple Bool Bool Bool"],
    );
    check(GENERIC, "Char -> (Char -> (Bool, String))", vec![]);
    check(GENERIC, "(Char, Char) -> (Char -> (Bool, String))", vec![]);
    check(GENERIC, "(Char, Bool) -> (Char -> (Char, String))", vec![]);
}

#[test]
fn generic_concrete_mixed() {
    check(GENERIC, "Int -> String -> Int", vec!["GConcreteMixed Int"]);
    check(
        GENERIC,
        "String -> String -> String",
        vec!["GConcreteMixed String", "GFunctionMatching String String"],
    );
    check(GENERIC, "String -> Int -> String", vec![]);
    check(GENERIC, "String -> (Char -> Bool) -> String", vec!["GConcreteMixed2 String Char"]);
    check(GENERIC, "Bool -> (Bool -> Bool) -> Bool", vec!["GConcreteMixed2 Bool Bool"]);
    check(GENERIC, "String -> (Char, Bool) -> String", vec![]);
}

#[test]
fn scenario_concrete_alias_matches() {
    let response = respond(SCENARIO, "Int").unwrap();
    assert_eq!(response.matches.len(), 1);
    let m = &response.matches[0];
    assert_eq!(m.replaced_type, "CInt");
    assert_eq!(m.matched, "type CInt = Int");
    assert_eq!(m.variable_map.len(), 0);
    assert_eq!(m.location, Range { start: Position { row: 0, col: 12 }, end: Position { row: 0, col: 15 } });
    assert_eq!(response.echo_request.target_type, "Int");
    assert_eq!(response.echo_request.source, SCENARIO);
}

#[test]
fn scenario_other_concrete_type_has_no_match() {
    assert_eq!(names(SCENARIO, "Bool"), Vec::<String>::new());
}

#[test]
fn scenario_leaf_never_matches_tuple() {
    assert_eq!(names("type GTag a = (a, String)\n", "Char"), Vec::<String>::new());
}

#[test]
fn scenario_variable_bound_to_target_type() {
    let response = respond("type GTag a = (a, String)\n", "(Int, String)").unwrap();
    assert_eq!(response.matches.len(), 1);
    let m = &response.matches[0];
    assert_eq!(m.replaced_type, "GTag Int");
    assert_eq!(m.variable_map.len(), 1);
    assert_eq!(m.variable_map.get("a").map(|s| s.as_str()), Some("Int"));
}

#[test]
fn scenario_repeated_variable_must_agree() {
    let response = respond("type P a = (a, a)\n", "(Int, Int)").unwrap();
    assert_eq!(response.matches.len(), 1);
    assert_eq!(response.matches[0].replaced_type, "P Int");
    assert_eq!(response.matches[0].variable_map.get("a").map(|s| s.as_str()), Some("Int"));
    assert_eq!(names("type P a = (a, a)\n", "(Int, Char)"), Vec::<String>::new());
}

#[test]
fn scenario_target_with_variable_fails() {
    assert_eq!(respond(SCENARIO, "a -> a").err(), Some(AliasError::TargetNotConcrete));
}

#[test]
fn requery_gives_same_matches() {
    let first = names(GENERIC, "String -> String -> String");
    let second = names(GENERIC, "String -> String -> String");
    assert_eq!(first, second);
}

#[test]
fn shape_mismatch_gives_empty_list() {
    assert_eq!(names(GENERIC, "(Int, Int, Int, Int)"), Vec::<String>::new());
}

#[test]
fn unparsable_target_is_invalid() {
    assert_eq!(respond(SCENARIO, "Int ->").err(), Some(AliasError::InvalidTargetSignature));
}

#[test]
fn matches_keep_source_order() {
    let response = respond(GENERIC, "(Int, Int)").unwrap();
    let order: Vec<&str> = response.matches.iter().map(|m| m.replaced_type.as_str()).collect();
    assert_eq!(order, vec!["G2Tuple Int Int", "G2TupleMatching Int"]);
}

#[test]
fn concrete_leaf_must_match_exactly() {
    let source = "type X a = (a, Char)\n";
    assert_eq!(names(source, "(Int, Int)"), Vec::<String>::new());
    assert_eq!(names(source, "(Int, Char)"), vec!["X Int".to_string()]);
}

#[test]
fn multi_line_declaration_header() {
    let source = "type Pair a b =\n  (a, b)\n";
    let response = respond(source, "(Int, Char)").unwrap();
    assert_eq!(response.matches.len(), 1);
    assert_eq!(response.matches[0].replaced_type, "Pair Int Char");
    assert_eq!(response.matches[0].location.start, Position { row: 1, col: 2 });
}

#[test]
fn qualified_names_compare_whole() {
    let source = "type Q = M.T\ntype R = N.T\ntype S a = Maybe a\n";
    assert_eq!(names(source, "M.T"), vec!["Q".to_string()]);
    assert_eq!(names(source, "Maybe M.T"), vec!["S M.T".to_string()]);
}
