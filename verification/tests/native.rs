use lib::native::{
    array_method_arity, array_method_kind, call_array_method, ArrayFn, ArrayMethodKind, ArrayReply,
    MathFloorFn,
};

#[test]
fn array_constructor_collects_arguments() {
    let f = ArrayFn;
    assert_eq!(f.arity(), 0);
    assert!(f.is_variadic());
    assert_eq!(f.call(vec![1, 2, 3]), vec![1, 2, 3]);
    assert_eq!(f.call(Vec::<i32>::new()), Vec::<i32>::new());
}

#[test]
fn floor_takes_one_argument() {
    assert_eq!(MathFloorFn.arity(), 1);
}

#[test]
fn array_method_arities() {
    assert_eq!(array_method_arity(&"push".to_string()), 1);
    assert_eq!(array_method_arity(&"pop".to_string()), 0);
    assert_eq!(array_method_arity(&"len".to_string()), 0);
    assert_eq!(array_method_arity(&"set".to_string()), 2);
    assert_eq!(array_method_arity(&"get".to_string()), 1);
    assert_eq!(array_method_arity(&"shift".to_string()), 0);
    assert_eq!(array_method_kind(&"get".to_string()), ArrayMethodKind::GetItem);
    assert_eq!(array_method_kind(&"Push".to_string()), ArrayMethodKind::Undefined);
}

#[test]
fn push_appends_and_answers_nil() {
    let mut arr = vec![1, 2];
    let r = call_array_method(&"push".to_string(), &mut arr, &vec![7], Err("unused".to_string()));
    assert!(matches!(r, Ok(ArrayReply::Nil)));
    assert_eq!(arr, vec![1, 2, 7]);
}

#[test]
fn pop_undoes_push() {
    let mut arr = vec![4, 5];
    let before = arr.clone();
    call_array_method(&"push".to_string(), &mut arr, &vec![9], Ok(0)).unwrap();
    let len = call_array_method(&"len".to_string(), &mut arr, &vec![], Ok(0));
    assert!(matches!(len, Ok(ArrayReply::Length(3))));
    let r = call_array_method(&"pop".to_string(), &mut arr, &vec![], Ok(0));
    assert!(matches!(r, Ok(ArrayReply::Value(9))));
    assert_eq!(arr, before);
}

#[test]
fn pop_on_empty_array_fails() {
    let mut arr: Vec<i32> = vec![];
    let r = call_array_method(&"pop".to_string(), &mut arr, &vec![], Ok(0));
    assert!(matches!(r, Err(m) if m == "Cannot pop from empty array."));
    assert!(arr.is_empty());
}

#[test]
fn set_then_get() {
    let mut arr = vec![10, 20, 30];
    let r = call_array_method(&"set".to_string(), &mut arr, &vec![0, 99], Ok(1));
    assert!(matches!(r, Ok(ArrayReply::Value(99))));
    assert_eq!(arr, vec![10, 99, 30]);
    let r = call_array_method(&"get".to_string(), &mut arr, &vec![1], Ok(1));
    assert!(matches!(r, Ok(ArrayReply::Value(99))));
    assert_eq!(arr, vec![10, 99, 30]);
}

#[test]
fn index_out_of_range() {
    let mut arr = vec![1];
    let r = call_array_method(&"set".to_string(), &mut arr, &vec![0, 5], Ok(1));
    assert!(matches!(r, Err(m) if m == "Cannot set array index."));
    assert_eq!(arr, vec![1]);
    let r = call_array_method(&"get".to_string(), &mut arr, &vec![0], Ok(3));
    assert!(matches!(r, Err(m) if m == "Cannot set array index."));
}

#[test]
fn index_error_is_passed_through() {
    let mut arr = vec![1, 2];
    let msg = "Array index must be a non-negative integer.".to_string();
    let r = call_array_method(&"get".to_string(), &mut arr, &vec![0], Err(msg.clone()));
    assert!(matches!(r, Err(m) if m == msg));
    let r = call_array_method(&"set".to_string(), &mut arr, &vec![0, 3], Err(msg.clone()));
    assert!(matches!(r, Err(m) if m == msg));
    assert_eq!(arr, vec![1, 2]);
}

#[test]
fn undefined_method() {
    let mut arr = vec![1];
    let r = call_array_method(&"shift".to_string(), &mut arr, &vec![], Ok(0));
    assert!(matches!(r, Err(m) if m == "Undefined array method 'shift'."));
    assert_eq!(arr, vec![1]);
}
