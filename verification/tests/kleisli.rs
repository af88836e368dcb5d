use plumbum::Kleisli;

#[test]
fn kleisli_run_plus_one() {
    let k: Kleisli<i32, (), (), i32, _> = Kleisli::new().append(|a: i32| (a + 1).into());
    assert!(k.run(42) == 43.into());
}

#[test]
fn kleisli_run_to_string() {
    let k: Kleisli<i32, (), (), String, _> = Kleisli::new().append(|a: i32| (a.to_string()).into());
    assert!(k.run(42) == "42".to_string().into());
}
