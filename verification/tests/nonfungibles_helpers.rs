use frame_contrib::nonfungibles_helpers::SelectNonFungibleItem;

#[test]
fn lib_it_works() {
    // No-op works
    assert!(SelectNonFungibleItem::<u32, u32>::select(&(), 1, 1));
    assert!(SelectNonFungibleItem::<u32, u32>::select(&(), 1, 2));

    // Specific function works
    let select: Box<dyn SelectNonFungibleItem<u32, u32>> = Box::new(|a, b| (a + b) < 3u32);
    assert!(select.select(1, 1));
    assert!(!select.select(1, 2));
}
