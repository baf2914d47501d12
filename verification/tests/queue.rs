use rusty_link::link_audio::queue::queue;

#[test]
fn slots_travel_from_writer_to_reader() {
    let (mut writer, mut reader) = queue(4, 0i32);

    assert_eq!(writer.num_slots(), 4);
    assert!(!reader.retain_slot());

    assert!(writer.retain_slot());
    *writer.slot_mut().unwrap() = 42;
    writer.release_slot();

    assert!(reader.retain_slot());
    assert_eq!(*reader.slot_mut().unwrap(), 42);
    reader.release_slot();

    assert!(!reader.retain_slot());
}

#[test]
fn only_one_slot_is_retained_at_a_time() {
    let (mut writer, _reader) = queue(2, 0u8);
    assert!(writer.retain_slot());
    assert!(!writer.retain_slot());
    assert_eq!(writer.num_retained_slots(), 1);
}

#[test]
fn queue_becomes_full_when_the_reader_stalls() {
    let (mut writer, _reader) = queue(2, 0u8);

    assert!(writer.retain_slot());
    writer.release_slot();
    assert!(writer.retain_slot());
    writer.release_slot();
    // The pool is exhausted until the reader recycles a slot.
    assert!(!writer.retain_slot());
}

#[test]
fn slots_are_recycled() {
    let (mut writer, mut reader) = queue(2, 0usize);

    for i in 0..10 {
        assert!(writer.retain_slot());
        *writer.slot_mut().unwrap() = i;
        writer.release_slot();

        assert!(reader.retain_slot());
        assert_eq!(*reader.slot_mut().unwrap(), i);
        reader.release_slot();
    }
}

#[test]
fn slot_mut_is_none_when_nothing_is_retained() {
    let (mut writer, mut reader) = queue(2, 0u8);
    assert!(writer.slot_mut().is_none());
    assert!(reader.slot_mut().is_none());
}

#[test]
fn a_queue_has_at_least_one_slot() {
    let (mut writer, mut reader) = queue(0, 7u8);
    assert_eq!(writer.num_slots(), 1);
    assert_eq!(reader.num_slots(), 1);
    assert_eq!(reader.num_retained_slots(), 0);
    assert!(writer.retain_slot());
    assert_eq!(*writer.slot_mut().unwrap(), 7);
    writer.release_slot();
    assert_eq!(writer.num_retained_slots(), 0);
    assert!(!writer.retain_slot());
    assert!(reader.retain_slot());
    assert_eq!(reader.num_retained_slots(), 1);
    reader.release_slot();
    assert!(writer.retain_slot());
}
