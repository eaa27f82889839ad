use rox::env::{Env, EnvError};
use rox::token::{Lexeme, Literal, Token, TokenType};
use rox::value::Value;

fn id(name: &str) -> Token {
    Token {
        typ: TokenType::Identifier,
        lexeme: Lexeme::from(name),
        literal: Some(Literal::String(name.to_string())),
        line: 1,
    }
}

#[test]
fn test_env() {
    let mut env = Env::new();
    env.define("foo", Value::from("bar")).unwrap();
    env.define("fzz", Value::from("bzz")).unwrap();
    assert_eq!(env.get(&id("foo")).unwrap(), Value::from("bar"));
    assert_eq!(env.get(&id("fzz")).unwrap(), Value::from("bzz"));
    assert!(env.get(&id("fuz")).unwrap_err().is_not_found());
    assert!(env.assign("foo-dne", Value::from("baz")).unwrap_err().is_undefined_assign());

    env.push();
    assert_eq!(env.get(&id("foo")).unwrap(), Value::from("bar"));
    assert!(env.get(&id("fuz")).unwrap_err().is_not_found());
    env.define("foo", Value::from("baz")).unwrap();
    assert_eq!(env.get(&id("foo")).unwrap(), Value::from("baz"));
    assert_eq!(env.get(&id("fzz")).unwrap(), Value::from("bzz"));

    env.pop().unwrap();
    assert_eq!(env.get(&id("foo")).unwrap(), Value::from("bar"));
    assert!(env.get(&id("fuz")).unwrap_err().is_not_found());
    assert_eq!(env.get(&id("fzz")).unwrap(), Value::from("bzz"));

    env.assign("fzz", Value::from("dzz")).unwrap();
    assert_eq!(env.get(&id("fzz")).unwrap(), Value::from("dzz"));
}

#[test]
fn test_nested_assign() {
    let mut env = Env::new();
    env.define("foo", Value::from("bar")).unwrap();
    env.assign("foo", Value::from("bar2")).unwrap();

    env.push();
    env.define("foo", Value::from("bar")).unwrap();
    assert_eq!(env.get(&id("foo")).unwrap(), Value::from("bar"));
    env.pop().unwrap();

    env.push();
    assert_eq!(env.get(&id("foo")).unwrap(), Value::from("bar2"));
    env.assign("foo", Value::from("bar3")).unwrap();
    assert_eq!(env.get(&id("foo")).unwrap(), Value::from("bar3"));
    env.pop().unwrap();

    assert_eq!(env.get(&id("foo")).unwrap(), Value::from("bar3"));
}

#[test]
fn test_push_pop() {
    let mut env = Env::new();
    env.define("foo", Value::from("bar")).unwrap();
    env.assign("foo", Value::from("bar2")).unwrap();

    env.push();
    env.define("foo", Value::from("baz")).unwrap();
    assert_eq!(env.get(&id("foo")).unwrap(), Value::from("baz"));

    env.pop().unwrap();
    assert_eq!(env.get(&id("foo")).unwrap(), Value::from("bar2"));
}

#[test]
fn the_global_frame_cannot_be_left() {
    let mut env = Env::new();
    assert!(env.pop().unwrap_err().is_no_parent_env());
    assert_eq!(env.pop().unwrap_err().message(), "no parent env to restore to");
}

#[test]
fn a_name_is_defined_once_in_a_frame_but_in_the_global_one() {
    let mut env = Env::new();
    env.define("a", Value::Nil).unwrap();
    env.define("a", Value::Bool(true)).unwrap();
    assert_eq!(env.get(&id("a")).unwrap(), Value::Bool(true));
    env.push();
    env.define("a", Value::Nil).unwrap();
    let err = env.define("a", Value::Nil).unwrap_err();
    assert!(err.is_already_defined());
    assert_eq!(err, EnvError::AlreadyDefined { name: "a".to_string() });
    assert_eq!(err.message(), "a binding 'a' already exists in this scope");
}

#[test]
fn a_child_sees_its_parent_and_not_the_other_way() {
    let mut env = Env::new();
    env.define("outer", Value::from("o")).unwrap();
    let global = env.current();
    let child = env.child();
    assert_eq!(env.current(), global);
    let before = env.enter(child);
    assert_eq!(before, global);
    env.define("inner", Value::from("i")).unwrap();
    assert_eq!(env.get(&id("outer")).unwrap(), Value::from("o"));
    env.assign("outer", Value::from("changed")).unwrap();
    env.enter(before);
    assert_eq!(env.get(&id("outer")).unwrap(), Value::from("changed"));
    assert!(env.get(&id("inner")).unwrap_err().is_not_found());
}

#[test]
fn a_handle_sees_what_was_bound_before_it_was_taken() {
    let mut env = Env::new();
    env.push();
    env.define("a", Value::from("first")).unwrap();
    let early = env.current();
    env.define("b", Value::from("second")).unwrap();
    let late = env.current();
    assert!(env.is_valid(early));
    env.enter(early);
    assert!(env.get(&id("b")).unwrap_err().is_not_found());
    assert_eq!(env.get(&id("a")).unwrap(), Value::from("first"));
    env.enter(late);
    assert_eq!(env.get(&id("b")).unwrap(), Value::from("second"));
    assert_eq!(env.with_cursor(1), early);
    assert_eq!(env.with_cursor(99), late);
}

#[test]
fn error_messages_name_the_variable() {
    let mut env = Env::new();
    assert_eq!(env.get(&id("x")).unwrap_err().message(), "undefined variable 'x'");
    assert_eq!(
        env.assign("x", Value::Nil).unwrap_err().message(),
        "undefined variable in assign 'x'"
    );
}
