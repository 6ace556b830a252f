use shooter_compute::nt::log_result;

#[test]
fn ok_passes_through() {
    let r = log_result::<i32>(Ok(5));
    assert_eq!(r.unwrap(), 5);
}

#[test]
fn error_passes_through() {
    let r = log_result::<i32>(Err(anyhow::Error::msg("no client")));
    assert_eq!(r.unwrap_err().to_string(), "no client");
}
