use spindownd::errors::{Context, Error};

fn assert_result_display(res: Result<(), Error>, expected: &str) {
    assert_eq!(res.err().unwrap().message(), expected);
}

#[test]
fn check_sizeofs() {
    assert_eq!(
        std::mem::size_of::<Result<usize, Error>>(),
        2 * std::mem::size_of::<usize>()
    );
}

#[test]
fn it_works() {
    assert_result_display(Err(0_i32.into()), "Success (os error 0)");
    assert_result_display(Err("a".into()), "a");
    assert_result_display(Err("c").context("b").with_context(|| "a"), "a: b: c");
    assert_result_display(
        Err(0_i32).context("b").with_context(|| "a"),
        "a: b: Success (os error 0)",
    );
}

#[test]
fn push_context_renders_outermost_first() {
    let e = Error::from_msg("inner").push_context("outer");
    assert_eq!(e.message(), "outer: inner");
}

#[test]
fn empty_chain_without_source_renders_empty() {
    let ok: Result<(), &'static str> = Ok(());
    assert!(ok.context("never").is_ok());
    let e = Error::from_errno(2);
    let msg = e.message();
    assert!(msg.contains("os error 2"));
}

#[test]
fn context_keeps_ok_value() {
    let r: Result<u32, &'static str> = Ok(7);
    assert_eq!(r.context("ctx").unwrap(), 7);
}
