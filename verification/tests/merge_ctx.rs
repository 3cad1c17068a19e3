use floxide::merge::{Fixed, Merge};
use floxide::syntax;

pub struct Counter {
    count: i32,
}

impl Default for Counter {
    fn default() -> Self {
        Self { count: 0 }
    }
}

impl Merge for Counter {
    fn merge(&mut self, other: Self) {
        self.count += other.count;
    }
}

pub struct Log {
    messages: Vec<String>,
}

impl Default for Log {
    fn default() -> Self {
        Self {
            messages: Vec::new(),
        }
    }
}

impl Merge for Log {
    fn merge(&mut self, other: Self) {
        self.messages.extend(other.messages);
    }
}

// A context whose fields each merge: merging merges field by field.
#[derive(Default)]
struct SimpleCtx {
    a: Counter,
    b: Log,
}

impl Merge for SimpleCtx {
    fn merge(&mut self, other: Self) {
        self.a.merge(other.a);
        self.b.merge(other.b);
    }
}

#[test]
fn test_merge_simple_ctx() {
    let mut x = SimpleCtx {
        a: Counter { count: 2 },
        b: Log {
            messages: vec!["a".to_string()],
        },
    };
    let y = SimpleCtx {
        a: Counter { count: 3 },
        b: Log {
            messages: vec!["b".to_string(), "c".to_string()],
        },
    };
    x.merge(y);
    assert_eq!(x.a.count, 5);
    assert_eq!(x.b.messages, vec!["a", "b", "c"]);
}

#[test]
fn fixed_keeps_its_value_when_merged() {
    let mut f = Fixed::new(5);
    f.merge(Fixed::new(9));
    assert_eq!(*f.get(), 5);
    let mut d: Fixed<i32> = Fixed::default();
    d.merge(Fixed::new(5));
    // left identity: the default takes the merged-in value
    assert_eq!(*d.get(), 5);
}

#[test]
fn it_works() {
    let result = syntax::add(2, 2);
    assert_eq!(result, 4);
}

#[test]
fn fixed_keeps_its_value_and_derefs_to_it() {
    let mut d: Fixed<u64> = Fixed::default();
    d.merge(Fixed::new(9));
    // the first non-default value wins
    assert_eq!(*d, 9);
    d.merge(Fixed::new(3));
    assert_eq!(*d, 9);
    let mut x = Fixed::new(4u64);
    x.merge(Fixed::default());
    assert_eq!(*x.get(), 4);
}
