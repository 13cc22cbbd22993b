use lau_math_wasm::merged_agent_id;

#[test]
fn merged_id_joins_with_plus() {
    let id = merged_agent_id("a1", "a2");
    assert_eq!(id, "a1+a2");
    assert!(id.contains('+'));
}

#[test]
fn merged_id_of_empty_ids() {
    assert_eq!(merged_agent_id("", ""), "+");
    assert_eq!(merged_agent_id("x", ""), "x+");
}

#[test]
fn merged_ids_nest() {
    let ab = merged_agent_id("a", "b");
    assert_eq!(merged_agent_id(&ab, "c"), "a+b+c");
}
