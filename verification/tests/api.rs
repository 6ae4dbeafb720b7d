use photon::api::{hello, OnceSlot, TakeError};

#[test]
fn hello_greets_by_name() {
    assert_eq!(hello("Ada"), "Hello from photon, Ada!");
    assert_eq!(hello(""), "Hello from photon, !");
}

#[test]
fn once_slot_gives_its_value_once() {
    let mut slot = OnceSlot::new(vec![1u8, 2, 3]);
    assert_eq!(slot.take(), Ok(vec![1, 2, 3]));
    assert_eq!(slot.take(), Err(TakeError::AlreadyTaken));
    assert_eq!(slot.take(), Err(TakeError::AlreadyTaken));
}
