use ferail_gpui::keyboard_help::{category_title, command_groups, Category};

#[test]
fn commands_group_by_category_in_order_of_first_appearance() {
    let cats = vec![Category::File, Category::View, Category::File, Category::Go, Category::View];
    let groups = command_groups(&cats);
    assert_eq!(
        groups,
        vec![
            (Category::File, vec![0, 2]),
            (Category::View, vec![1, 4]),
            (Category::Go, vec![3]),
        ]
    );
    assert!(command_groups(&Vec::new()).is_empty());
}

#[test]
fn categories_have_titles() {
    assert_eq!(category_title(Category::Selection), "Selection");
    assert_eq!(category_title(Category::Context), "Context");
}
