use fuzzy_finder::item::Item;
use fuzzy_finder::list::List;

#[derive(Clone)]
struct TestItem {
    name: String,
}

fn item(name: &str) -> Item<TestItem> {
    Item::new(
        String::from(name),
        TestItem {
            name: String::from(name),
        },
    )
}

struct Setup {
    items: Vec<Item<TestItem>>,
    few_items: Vec<Item<TestItem>>,
    view: List<Item<TestItem>>,
}

impl Setup {
    fn new(lines_to_show: i8) -> Self {
        let view = List::<Item<TestItem>>::new(lines_to_show as usize);

        Setup {
            items: vec![
                item("A"),
                item("B"),
                item("C"),
                item("D"),
                item("E"),
                item("F"),
                item("G"),
                item("H"),
                item("I"),
                item("J"),
                item("K"),
                item("L"),
                item("M"),
            ],
            few_items: vec![item("A"), item("B"), item("C")],
            view,
        }
    }
}

#[test]
fn list_test_update() {
    // GIVEN
    let mut setup = Setup::new(8);

    // WHEN
    setup.view.update(&setup.items);

    // THEN
    assert_eq!(setup.view.len(), 8);
    assert_eq!(setup.view.num_above(), Some(7)); // 0-indexed
    assert_eq!(setup.view.get_selected().data.name, "A")
}

#[test]
fn list_test_up() {
    // GIVEN
    let mut setup = Setup::new(8);
    setup.view.update(&setup.items);

    // WHEN
    setup.view.up(); // 6
    setup.view.up(); // 5
    setup.view.up(); // 4

    // THEN
    assert_eq!(setup.view.len(), 8);
    assert_eq!(setup.view.num_above(), Some(4));
}

#[test]
fn test_up_to_extremis() {
    // GIVEN
    let mut setup = Setup::new(8);
    setup.view.update(&setup.items);
    assert!(setup.items.len() > 0);
    assert_eq!(
        setup.view.len(),
        setup.view.capacity().min(setup.items.len())
    );

    // WHEN
    // More than lines_to_show
    setup.view.up();
    setup.view.up();
    setup.view.up();
    setup.view.up();
    setup.view.up();
    setup.view.up();
    setup.view.up();
    setup.view.up();
    setup.view.up();
    setup.view.up();
    setup.view.up();
    setup.view.up();
    setup.view.up();

    // THEN
    assert_eq!(setup.view.len(), 8);
    assert_eq!(setup.view.num_above(), Some(0));
}

#[test]
fn list_test_down_at_bottom() {
    // GIVEN
    let mut setup = Setup::new(8);
    setup.view.update(&setup.items);

    // WHEN
    setup.view.down(); // 7

    // THEN
    assert_eq!(setup.view.len(), 8);
    assert_eq!(setup.view.num_above(), Some(7));
}

#[test]
fn list_test_down() {
    // GIVEN
    let mut setup = Setup::new(8);
    setup.view.update(&setup.items);

    // WHEN
    setup.view.up(); // 6
    setup.view.up(); // 5
    setup.view.up(); // 4
    setup.view.down(); // 5

    // THEN
    assert_eq!(setup.view.len(), 8);
    assert_eq!(setup.view.num_above(), Some(5));
}

#[test]
fn list_test_few() {
    // GIVEN
    let mut setup = Setup::new(8);

    // WHEN
    setup.view.update(&setup.few_items);
    setup.view.up(); // 6
    setup.view.up(); // 5
    setup.view.up(); // 5
    setup.view.up(); // 5

    // THEN
    assert_eq!(setup.view.len(), 3);
    assert_eq!(setup.view.num_above(), Some(0));
}

#[test]
fn list_starts_empty() {
    let list = List::<u32>::new(4);
    assert_eq!(list.capacity(), 4);
    assert_eq!(list.len(), 0);
    assert_eq!(list.num_above(), None);
    assert!(list.items().is_empty());
    assert!(list.tagged_iter().is_empty());
}

#[test]
fn list_items_run_from_top_to_bottom() {
    let mut list = List::<u32>::new(3);
    list.update(&[10, 20, 30, 40]);
    assert_eq!(list.items(), vec![30, 20, 10]);
    assert_eq!(*list.get_selected(), 10);
    list.up();
    assert_eq!(*list.get_selected(), 20);
}

#[test]
fn list_tags_the_row_counted_from_the_top() {
    let mut list = List::<u32>::new(3);
    list.update(&[10, 20, 30]);
    assert_eq!(
        list.tagged_iter(),
        vec![(false, 30), (false, 20), (false, 10)]
    );
    list.up();
    assert_eq!(
        list.tagged_iter(),
        vec![(false, 30), (false, 20), (true, 10)]
    );
    list.up();
    assert_eq!(
        list.tagged_iter(),
        vec![(false, 30), (true, 20), (false, 10)]
    );
}

#[test]
fn list_update_pulls_the_selection_back() {
    let mut list = List::<u32>::new(8);
    list.update(&[1, 2, 3, 4, 5]);
    list.up();
    list.up();
    list.up();
    assert_eq!(*list.get_selected(), 4);
    list.update(&[7, 8]);
    assert_eq!(list.len(), 2);
    assert_eq!(*list.get_selected(), 8);
    list.update(&[]);
    assert_eq!(list.len(), 0);
    assert_eq!(list.num_above(), None);
    list.update(&[9]);
    assert_eq!(*list.get_selected(), 9);
    list.down();
    assert_eq!(*list.get_selected(), 9);
}
