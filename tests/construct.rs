use boxarray::{boxarray, Array, HeapArray, Value};

type Grid = Array<Array<Value, 3>, 2>;

#[test]
fn boxarray_scalar() {
    let a: Box<u32> = boxarray::<u32, Value, u32>(1);
    assert_eq!(*a, 1u32);
}

#[test]
fn boxarray_single_array() {
    let a: Box<[u32; 10]> = boxarray::<u32, Array<Value, 10>, [u32; 10]>(1);
    assert_eq!(*a, [1u32; 10]);
}

#[test]
fn boxarray_nested_array() {
    let a: Box<[[[f64; 10]; 2]; 4]> = boxarray(7.0);
    assert_eq!(*a, [[[7f64; 10]; 2]; 4]);
}

#[test]
fn boxarray_zero_length_dimension() {
    let a: Box<[[u8; 3]; 0]> = boxarray(9u8);
    assert_eq!(a.len(), 0);
}

#[test]
fn boxarray_zero_size_element() {
    let a: Box<[[(); 3]; 2]> = boxarray(());
    assert_eq!(std::mem::size_of_val(&*a), 0);
    assert_eq!(*a, [[(); 3]; 2]);
}

#[test]
fn boxarray_is_deterministic() {
    let a: Box<[[i64; 4]; 3]> = boxarray(-5);
    let b: Box<[[i64; 4]; 3]> = boxarray(-5);
    assert_eq!(a, b);
    assert!(!std::ptr::eq(&*a, &*b));
}

#[test]
fn broadcast_fills_every_slot() {
    let a = HeapArray::<u32, Grid>::broadcast(7).unwrap();
    assert_eq!(a.len(), 6);
    assert_eq!(a.as_slice(), &[7u32; 6][..]);
    for i in 0..2 {
        for j in 0..3 {
            assert_eq!(*a.get(&(i, (j, ()))), 7);
        }
    }
}

#[test]
fn broadcast_scalar_shape() {
    let a = HeapArray::<char, Value>::broadcast('x').unwrap();
    assert_eq!(a.into_vec(), vec!['x']);
}

#[test]
fn broadcast_zero_length_dimension() {
    let a = HeapArray::<u64, Array<Array<Value, 5>, 0>>::broadcast(3).unwrap();
    assert_eq!(a.len(), 0);
    assert!(a.as_slice().is_empty());
}

#[test]
fn broadcast_too_large_is_none() {
    assert!(HeapArray::<u8, Array<Array<Value, { usize::MAX }>, 2>>::broadcast(0).is_none());
}

#[test]
fn from_coordinates_row_major() {
    let a = HeapArray::<usize, Grid>::from_coordinates(|(i, (j, ()))| i + 3 * j).unwrap();
    assert_eq!(a.as_slice(), &[0, 3, 6, 1, 4, 7][..]);
    let nested = [[0, 3, 6], [1, 4, 7]];
    for i in 0..2 {
        for j in 0..3 {
            assert_eq!(*a.get(&(i, (j, ()))), nested[i][j]);
            assert_eq!(*a.get(&(i, (j, ()))), i + 3 * j);
        }
    }
}

#[test]
fn from_coordinates_calls_in_flat_order() {
    let calls = std::cell::RefCell::new(Vec::new());
    let a = HeapArray::<(usize, usize), Grid>::from_coordinates(|(i, (j, ()))| {
        calls.borrow_mut().push((i, j));
        (i, j)
    })
    .unwrap();
    let expected = vec![(0, 0), (0, 1), (0, 2), (1, 0), (1, 1), (1, 2)];
    assert_eq!(*calls.borrow(), expected);
    assert_eq!(a.into_vec(), expected);
}

#[test]
fn from_coordinates_scalar_shape() {
    let a = HeapArray::<i32, Value>::from_coordinates(|()| 42).unwrap();
    assert_eq!(a.into_vec(), vec![42]);
}

#[test]
fn from_coordinates_zero_length_never_calls() {
    let a = HeapArray::<u8, Array<Value, 0>>::from_coordinates(|(_, ())| panic!("no slot")).unwrap();
    assert_eq!(a.len(), 0);
}

#[test]
fn from_coordinates_too_large_is_none() {
    let a = HeapArray::<u8, Array<Array<Value, { usize::MAX }>, 2>>::from_coordinates(|_| 0);
    assert!(a.is_none());
}

#[test]
fn zero_size_elements_take_no_bytes() {
    let a = HeapArray::<(), Array<Array<Value, 1000>, 1000>>::broadcast(()).unwrap();
    assert_eq!(a.len(), 1_000_000);
    assert_eq!(std::mem::size_of_val(a.as_slice()), 0);
    let b = HeapArray::<(), Grid>::from_coordinates(|_| ()).unwrap();
    assert_eq!(b.len(), 6);
    assert_eq!(std::mem::size_of_val(b.as_slice()), 0);
}

#[test]
fn construction_is_deterministic() {
    let a = HeapArray::<u16, Grid>::broadcast(11).unwrap();
    let b = HeapArray::<u16, Grid>::broadcast(11).unwrap();
    assert_eq!(a.as_slice(), b.as_slice());
    assert_ne!(a.as_slice().as_ptr(), b.as_slice().as_ptr());
    let c = HeapArray::<usize, Grid>::from_coordinates(|(i, (j, ()))| 10 * i + j).unwrap();
    let d = HeapArray::<usize, Grid>::from_coordinates(|(i, (j, ()))| 10 * i + j).unwrap();
    assert_eq!(c.into_vec(), d.into_vec());
}
