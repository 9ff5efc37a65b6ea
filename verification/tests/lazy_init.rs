use osmium::lazy_init::Lazy;

struct CantConstructAtCompileTime {
    nums: [u8; 24],
}

impl CantConstructAtCompileTime {
    pub fn new(n: u8) -> Self {
        Self { nums: [n; 24] }
    }
}

#[test]
fn lazy_initialization_test() {
    let mut lazy_variable = Lazy::new(|| CantConstructAtCompileTime::new(42));
    assert!(!Lazy::is_initialized(&lazy_variable));
    lazy_variable.get_mut().nums[0] = 56;
    assert!(Lazy::is_initialized(&lazy_variable));
    assert_eq!(lazy_variable.get().nums[0], 56);
    assert_eq!(lazy_variable.get().nums[1], 42);
}
