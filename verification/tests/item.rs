use promql_parser::parser::item::{Item, ItemType};

#[test]
fn test_item_to_string() {
    let item = Item::new(ItemType::KeywordItemType, 3, "by".to_string());
    assert_eq!(item.to_string(), "item by");
}
