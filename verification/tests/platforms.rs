use hrdf_parser::platforms::{create_journey_stop_platforms_index_1, JourneyStop};
use std::rc::Rc;

#[test]
fn journey_stops_are_grouped_by_journey_and_stop_in_order() {
    let items = vec![
        Rc::new(JourneyStop::new(8500010, 1, "000011".to_string(), 1)),
        Rc::new(JourneyStop::new(8500020, 1, "000011".to_string(), 2)),
        Rc::new(JourneyStop::new(8500010, 1, "000011".to_string(), 3)),
        Rc::new(JourneyStop::new(8500010, 2, "000011".to_string(), 4)),
    ];
    let index = create_journey_stop_platforms_index_1(&items);
    assert_eq!(index.len(), 3);
    let first: Vec<i32> = index[&(1, 8500010)].iter().map(|s| s.platform_index).collect();
    assert_eq!(first, vec![1, 3]);
    assert_eq!(index[&(1, 8500020)].len(), 1);
    assert_eq!(index[&(2, 8500010)][0].platform_index, 4);
    assert!(Rc::ptr_eq(&index[&(2, 8500010)][0], &items[3]));
    assert!(create_journey_stop_platforms_index_1(&Vec::new()).is_empty());
}
