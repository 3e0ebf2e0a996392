use amity_fx::command_error::{RemoveLayerError, ReorderLayersError};
use amity_fx::error::IndexError;
use amity_fx::layer_pos::{InsertLayerError, LayerPos, SelectLayerError};
use amity_fx::layers::Layers;

fn stack(names: &[&'static str], curr: usize) -> Layers<&'static str> {
    Layers::from_parts(names.to_vec(), curr).expect("valid cursor")
}

fn names(l: &Layers<&'static str>) -> Vec<&'static str> {
    l.as_slice().to_vec()
}

#[test]
fn new_stack_is_empty() {
    let l: Layers<u8> = Layers::new();
    assert!(l.is_empty());
    assert_eq!(l.len(), 0);
    assert_eq!(l.curr(), None);
}

#[test]
fn from_parts_checks_cursor() {
    assert!(Layers::<u8>::from_parts(vec![], 0).is_some());
    assert!(Layers::<u8>::from_parts(vec![], 1).is_none());
    assert!(Layers::from_parts(vec![1u8, 2], 1).is_some());
    assert!(Layers::from_parts(vec![1u8, 2], 2).is_none());
    let (list, curr) = stack(&["a", "b"], 1).into_parts();
    assert_eq!(list, vec!["a", "b"]);
    assert_eq!(curr, 1);
}

#[test]
fn inserted_layer_becomes_current() {
    let mut l = Layers::new();
    *l.insert(LayerPos::Current, "a").unwrap() = "a";
    assert_eq!(l.curr(), Some(0));
    l.insert(LayerPos::Next, "b").unwrap();
    assert_eq!(names(&l), vec!["a", "b"]);
    assert_eq!(l.curr(), Some(1));
    l.insert(LayerPos::Back, "c").unwrap();
    assert_eq!(names(&l), vec!["c", "a", "b"]);
    assert_eq!(l.curr(), Some(0));
    assert_eq!(*l.get(LayerPos::Current).unwrap(), "c");
    l.insert(LayerPos::Index(3), "d").unwrap();
    assert_eq!(names(&l), vec!["c", "a", "b", "d"]);
    assert_eq!(*l.get(LayerPos::Current).unwrap(), "d");
}

#[test]
fn insert_out_of_range_changes_nothing() {
    let mut l = stack(&["a", "b"], 0);
    assert_eq!(
        l.insert(LayerPos::Index(5), "x").err(),
        Some(InsertLayerError::IndexOutOfBounds(IndexError::Value(5)))
    );
    assert_eq!(names(&l), vec!["a", "b"]);
    assert_eq!(l.curr(), Some(0));
    assert_eq!(l.insert_idx(LayerPos::Front), Ok(2));
}

#[test]
fn get_and_get_mut() {
    let mut l = stack(&["a", "b", "c"], 1);
    assert_eq!(*l.get(LayerPos::Prev).unwrap(), "a");
    assert_eq!(*l.get(LayerPos::Front).unwrap(), "c");
    *l.get_mut(LayerPos::Next).unwrap() = "z";
    assert_eq!(names(&l), vec!["a", "b", "z"]);
    assert_eq!(
        l.get(LayerPos::Index(3)).err(),
        Some(SelectLayerError::IndexOutOfBounds(IndexError::Value(3)))
    );
    assert_eq!(l.select_idx(LayerPos::Offset(1)), Ok(2));
}

#[test]
fn reorder_moves_and_shifts() {
    let mut l = stack(&["a", "b", "c", "d"], 0);
    assert_eq!(l.reorder(LayerPos::Index(0), LayerPos::Index(2)), Ok(true));
    assert_eq!(names(&l), vec!["b", "c", "a", "d"]);
    assert_eq!(l.reorder(LayerPos::Index(3), LayerPos::Index(1)), Ok(true));
    assert_eq!(names(&l), vec!["b", "d", "c", "a"]);
    assert_eq!(l.curr(), Some(0));
}

#[test]
fn reorder_round_trip() {
    let mut l = stack(&["a", "b", "c", "d"], 1);
    l.reorder(LayerPos::Index(1), LayerPos::Index(3)).unwrap();
    l.reorder(LayerPos::Index(3), LayerPos::Index(1)).unwrap();
    assert_eq!(names(&l), vec!["a", "b", "c", "d"]);
}

#[test]
fn reorder_same_place_is_unchanged() {
    let mut l = stack(&["a", "b"], 1);
    assert_eq!(l.reorder(LayerPos::Current, LayerPos::Index(1)), Ok(false));
    assert_eq!(names(&l), vec!["a", "b"]);
}

#[test]
fn reorder_errors() {
    let mut l = stack(&["a", "b"], 0);
    assert_eq!(
        l.reorder(LayerPos::Index(2), LayerPos::Index(0)),
        Err(ReorderLayersError::SrcIndexOutOfBounds(
            SelectLayerError::IndexOutOfBounds(IndexError::Value(2))
        ))
    );
    assert_eq!(
        l.reorder(LayerPos::Index(0), LayerPos::Prev),
        Err(ReorderLayersError::DstIndexOutOfBounds(
            SelectLayerError::IndexOutOfBounds(IndexError::Overflow)
        ))
    );
    assert_eq!(names(&l), vec!["a", "b"]);
}

#[test]
fn remove_several() {
    let mut l = stack(&["a", "b", "c", "d", "e"], 3);
    let removed = l
        .remove(vec![LayerPos::Index(4), LayerPos::Index(1), LayerPos::Back, LayerPos::Index(1)])
        .unwrap();
    assert_eq!(removed, vec![(0, "a"), (1, "b"), (4, "e")]);
    assert_eq!(names(&l), vec!["c", "d"]);
    // the active layer "d" stays active
    assert_eq!(l.curr(), Some(1));
    assert_eq!(*l.get(LayerPos::Current).unwrap(), "d");
}

#[test]
fn remove_active_layer() {
    let mut l = stack(&["a", "b", "c"], 1);
    let removed = l.remove(vec![LayerPos::Current]).unwrap();
    assert_eq!(removed, vec![(1, "b")]);
    assert_eq!(names(&l), vec!["a", "c"]);
    assert_eq!(l.curr(), Some(0));
}

#[test]
fn remove_everything() {
    let mut l = stack(&["a", "b"], 1);
    l.remove(vec![LayerPos::Index(0), LayerPos::Index(1)]).unwrap();
    assert!(l.is_empty());
    assert_eq!(l.curr(), None);
}

#[test]
fn remove_nothing() {
    let mut l = stack(&["a", "b"], 1);
    assert_eq!(l.remove(vec![]).unwrap(), vec![]);
    assert_eq!(names(&l), vec!["a", "b"]);
    assert_eq!(l.curr(), Some(1));
}

#[test]
fn remove_error_changes_nothing() {
    let mut l = stack(&["a", "b"], 1);
    assert_eq!(
        l.remove(vec![LayerPos::Index(0), LayerPos::Index(7), LayerPos::Next]),
        Err(RemoveLayerError::Select(SelectLayerError::IndexOutOfBounds(
            IndexError::Value(7)
        )))
    );
    assert_eq!(names(&l), vec!["a", "b"]);
    assert_eq!(l.curr(), Some(1));
}

#[test]
fn set_target_moves_cursor() {
    let mut l = stack(&["a", "b", "c"], 0);
    l.set_target(LayerPos::Front).unwrap();
    assert_eq!(l.curr(), Some(2));
    assert_eq!(
        l.set_target(LayerPos::Next),
        Err(SelectLayerError::IndexOutOfBounds(IndexError::Value(3)))
    );
    assert_eq!(l.curr(), Some(2));
    l.set_target(LayerPos::Offset(-2)).unwrap();
    assert_eq!(l.curr(), Some(0));
}

#[test]
fn insert_at_front_goes_on_top() {
    let mut l = stack(&["a", "b"], 0);
    l.insert(LayerPos::Front, "top").unwrap();
    assert_eq!(names(&l), vec!["a", "b", "top"]);
    assert_eq!(l.curr(), Some(2));
}
