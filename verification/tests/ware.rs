use shtola::{Middleware, Middleware2, Ware, Ware2};

struct AddOne;

impl Middleware<i32> for AddOne {
    fn rel(&self, _: i32, _: i32) -> bool {
        true
    }

    fn call(&self, input: i32) -> i32 {
        input + 1
    }
}

#[test]
fn it_works() {
    let value = 1;
    let mut w: Ware<i32> = Ware::new();
    w.wrap(Box::new(AddOne));
    assert_eq!(w.run(value), 2);
}

#[test]
fn it_is_immutable() {
    let value = 1;
    let mut w: Ware<i32> = Ware::new();
    w.wrap(Box::new(AddOne));
    assert_eq!(w.run(value), 2);
    assert_eq!(value, 1);
}

struct DecAndAppend;

impl Middleware2<i32, String> for DecAndAppend {
    fn rel(&self, _: (i32, String), _: (i32, String)) -> bool {
        true
    }

    fn call(&self, input1: i32, input2: String) -> (i32, String) {
        let num = input1 - 1;
        let mut string = String::new();
        string.push_str(&input2);
        string.push('b');
        (num, string)
    }
}

#[test]
fn ware2_works() {
    let val1 = 2;
    let val2 = "a".to_string();
    let mut w: Ware2<i32, String> = Ware2::new();
    w.wrap(Box::new(DecAndAppend));
    assert_eq!(w.run(val1, val2), (1, String::from("ab")));
}
