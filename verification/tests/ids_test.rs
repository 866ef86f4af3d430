use responses_stream::ids::{generate_item_id, new_response_id};

fn is_hex(text: &str) -> bool {
    text.chars().all(|c| c.is_ascii_hexdigit() && !c.is_ascii_uppercase())
}

#[test]
fn item_identifiers_are_a_prefix_and_a_uuid() {
    let id = generate_item_id("fc");
    let unique = id.strip_prefix("fc_").unwrap();
    assert_eq!(unique.len(), 32);
    assert!(is_hex(unique));
    assert_eq!(&unique[12..13], "7");
    assert_ne!(id, generate_item_id("fc"));
}

#[test]
fn response_identifiers_are_a_hyphenated_uuid() {
    let id = new_response_id();
    let unique = id.strip_prefix("resp_").unwrap();
    let groups: Vec<&str> = unique.split('-').collect();
    let lengths: Vec<usize> = groups.iter().map(|group| group.len()).collect();
    assert_eq!(lengths, vec![8, 4, 4, 4, 12]);
    assert!(groups.iter().all(|group| is_hex(group)));
    assert!(groups[2].starts_with('7'));
    assert_ne!(id, new_response_id());
}
