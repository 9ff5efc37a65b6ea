use osmium::memory::{
    align_address_down, align_address_up, DynamicallySized, DynamicallySizedObjectIterator,
    FromBytes, Validateable,
};

#[test]
fn align_test() {
    assert_eq!(align_address_down(0, 8), 0);
    assert_eq!(align_address_up(0, 8), 0);
    assert_eq!(align_address_down(1, 8), 0);
    assert_eq!(align_address_up(1, 8), 8);
    assert_eq!(align_address_down(8, 8), 8);
    assert_eq!(align_address_up(8, 8), 8);
}

#[derive(Clone, Copy)]
struct TestStruct {
    a: u8,
    b: u8,
    c: u8,
}

impl Validateable for TestStruct {
    fn validate(&self) -> bool {
        true
    }
}

impl DynamicallySized for TestStruct {
    fn size(&self) -> usize {
        3
    }
}

impl FromBytes for TestStruct {
    fn from_bytes(bytes: &[u8]) -> Option<Self> {
        if bytes.len() < 3 {
            None
        } else {
            Some(TestStruct { a: bytes[0], b: bytes[1], c: bytes[2] })
        }
    }
}

#[test]
fn test_dynamic_sized_object_iterator() {
    let memory = [0, 1, 2, 3, 4, 5, 6, 7, 8, 9, 10, 11];
    let mut iterator: DynamicallySizedObjectIterator<TestStruct> =
        DynamicallySizedObjectIterator::new(&memory);
    assert_eq!(iterator.peek().unwrap().value.a, 0);
    assert_eq!(iterator.next().unwrap().value.b, 1);
    assert_eq!(iterator.peek().unwrap().value.a, 3);
    assert_eq!(iterator.next().unwrap().value.c, 5);
    assert_eq!(iterator.peek().unwrap().value.a, 6);
    assert_eq!(iterator.next().unwrap().value.a, 6);
    assert_eq!(iterator.peek().unwrap().value.a, 9);
    assert_eq!(iterator.next().unwrap().value.b, 10);
    assert!(iterator.peek().is_none());
    assert!(iterator.next().is_none());
}
