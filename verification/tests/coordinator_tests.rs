use mpevent::coordinator::{is_residual, Coordinator, Directory, Participant};
use mpevent::error::Error;
use mpevent::event::Event;
use mpevent::{
    BUILTIN_EVENT_NEW_EVENT, BUILTIN_EVENT_NEW_PARTICIPANT, LOCK_REGION_SIZE, MAX_EVENTS,
    MAX_EVENT_NAME_SIZE, MAX_PARTICIPANTS, MAX_PARTICIPANT_NAME_SIZE, WAITABLE_REGION_SIZE,
};
use rufutex::rufutex::SharedFutex;

fn coordinator_cell() -> SharedFutex {
    let word: &'static mut u64 = Box::leak(Box::new(0u64));
    SharedFutex::new(std::ptr::from_mut(word).cast::<libc::c_void>())
}

#[test]
fn test_shared_memory_write_read() {
    let mut directory = Directory::new();
    let coordinator = Coordinator::new("test_shared_memory_write_read");
    let coordinator2 = Coordinator::new("test_shared_memory_write_read");

    let ret = coordinator.add_participant(&mut directory, "test_participant");
    assert!(ret.is_ok());
    let num_participants = coordinator2.get_number_of_participants(&directory);
    assert_eq!(num_participants, 1);
    let s = coordinator2.get_participant(&directory, 0).unwrap();
    assert_eq!(s.id, 0);

    let vname: Vec<u8> = s.name.iter().take_while(|&&c| c != 0).cloned().collect();
    let name = String::from_utf8(vname.to_vec()).unwrap();
    assert_eq!(name, "test_participant");

    let s = coordinator.get_participant(&directory, 0).unwrap();
    assert_eq!(s.id, 0);
    let name = s.get_name();
    assert_eq!(name, "test_participant");
}

#[test]
fn coordinator_test_events() {
    let mut directory = Directory::new();
    let coordinator = Coordinator::new("test_events");
    let coordinator2 = Coordinator::new("test_events");
    let participant_id = coordinator
        .add_participant(&mut directory, "test_shared_memory_participant")
        .unwrap();
    let ret = coordinator.add_event(&mut directory, participant_id, "test_event");
    assert!(ret.is_ok());
    let num_events = coordinator2.get_number_of_events(&directory);
    assert_eq!(num_events, 1);
    let ret = coordinator2.add_event(&mut directory, participant_id, "test_event");
    assert!(ret.is_ok());
    let num_events = coordinator2.get_number_of_events(&directory);
    assert_eq!(num_events, 1);
    let ret = coordinator2.add_event(&mut directory, participant_id, "test_event");
    assert!(ret.is_ok());
    let num_events = coordinator2.get_number_of_events(&directory);
    assert_eq!(num_events, 1);
}

#[test]
fn constants() {
    assert_eq!(MAX_PARTICIPANTS, 64);
    assert_eq!(MAX_EVENTS, 64);
    assert_eq!(MAX_PARTICIPANT_NAME_SIZE, 64);
    assert_eq!(MAX_EVENT_NAME_SIZE, 256);
    assert_eq!(LOCK_REGION_SIZE, 4);
    assert_eq!(WAITABLE_REGION_SIZE, 8);
    assert_eq!(BUILTIN_EVENT_NEW_PARTICIPANT, "mpevent_new_participant");
    assert_eq!(BUILTIN_EVENT_NEW_EVENT, "mpevent_new_event");
}

#[test]
fn new_participant_is_cleared() {
    let participant = Participant::new();
    assert_eq!(participant.id, 0);
    assert_eq!(participant.name, [0u8; 64]);
    assert_eq!(participant.get_name(), "");
    assert!(participant.has_valid_name());
}

#[test]
fn undecodable_participant_name_is_detected() {
    let mut participant = Participant::new();
    participant.name[0] = b'o';
    participant.name[1] = b'k';
    assert!(participant.has_valid_name());
    assert_eq!(participant.get_name(), "ok");
    participant.name[2] = 0x80;
    assert!(!participant.has_valid_name());
}

#[test]
fn new_directory_is_empty() {
    let directory = Directory::new();
    let coordinator = Coordinator::new("ns");
    assert_eq!(directory.last_participant_id, 0);
    assert_eq!(directory.last_event_id, 0);
    assert!(directory.is_valid());
    assert!(directory.events_owners.iter().all(|o| *o == 0));
    assert!(directory.participants.iter().all(|p| p.id == 0 && p.name == [0u8; 64]));
    assert!(directory.events.iter().all(|e| e.id == 0 && e.name == [0u8; 256]));
    assert_eq!(coordinator.get_number_of_participants(&directory), 0);
    assert_eq!(coordinator.get_number_of_events(&directory), 0);
    assert_eq!(coordinator.get_last_participant_id(&directory), None);
    assert_eq!(coordinator.get_last_event_id(&directory), None);
}

#[test]
fn coordinator_names_its_regions() {
    let coordinator = Coordinator::new("ns1");
    assert_eq!(coordinator.get_path(), "ns1");
    assert_eq!(coordinator.mutex_path(), "ns1_mutex");
    assert_eq!(coordinator.qualified_name("e"), "ns1_e");
    assert_eq!(coordinator.qualified_name(""), "ns1_");
    assert_eq!(
        coordinator.qualified_name(BUILTIN_EVENT_NEW_PARTICIPANT),
        "ns1_mpevent_new_participant"
    );
    assert_eq!(coordinator.qualified_name(BUILTIN_EVENT_NEW_EVENT), "ns1_mpevent_new_event");
}

#[test]
fn solo() {
    let mut directory = Directory::new();
    let coordinator = Coordinator::new("ns1");
    assert_eq!(coordinator.add_participant(&mut directory, "alice"), Ok(0));
    let event = coordinator.add_event(&mut directory, 0, "e").unwrap();
    assert_eq!(coordinator.get_number_of_events(&directory), 1);
    assert_eq!(event.get_name(), "ns1_e");

    let mut waitable = event.get_waitable(Some(coordinator_cell())).unwrap();
    waitable.post_with_value(1, 1);
    waitable.wait(0);
    assert_ne!(waitable.get_futex_value(), 0);
    waitable.set_futex_value(0);
    assert_eq!(waitable.get_futex_value(), 0);
}

#[test]
fn two_participants_one_directory() {
    let mut directory = Directory::new();
    let first = Coordinator::new("ns2");
    assert_eq!(first.add_participant(&mut directory, "a"), Ok(0));
    let second = Coordinator::new("ns2");
    assert_eq!(second.get_number_of_participants(&directory), 1);
    assert_eq!(second.add_participant(&mut directory, "b"), Ok(1));
    assert_eq!(first.get_number_of_participants(&directory), 2);
    assert_eq!(first.get_participant(&directory, 1).unwrap().get_name(), "b");
    assert_eq!(second.get_participant(&directory, 0).unwrap().get_name(), "a");
}

#[test]
fn registered_participant_is_read_back_later() {
    let mut directory = Directory::new();
    let first = Coordinator::new("ns");
    let second = Coordinator::new("ns");
    let k = first.add_participant(&mut directory, "première").unwrap();
    assert_eq!(second.add_participant(&mut directory, "second"), Ok(1));
    assert!(second.add_event(&mut directory, 1, "e").is_ok());
    let record = second.get_participant(&directory, k).unwrap();
    assert_eq!(record.id, k);
    assert_eq!(record.get_name(), "première");
}

#[test]
fn ids_are_handed_out_in_order() {
    let mut directory = Directory::new();
    let coordinator = Coordinator::new("ns");
    for k in 0..10u64 {
        let name = format!("participant_{}", k);
        assert_eq!(coordinator.add_participant(&mut directory, &name), Ok(k));
        assert_eq!(coordinator.get_number_of_participants(&directory), k + 1);
        assert_eq!(coordinator.get_last_participant_id(&directory), Some(k));
    }
    for k in 0..10u64 {
        let record = coordinator.get_participant(&directory, k).unwrap();
        assert_eq!(record.id, k);
        assert_eq!(record.get_name(), format!("participant_{}", k));
    }
    assert!(directory.is_valid());
}

#[test]
fn capacity() {
    let mut directory = Directory::new();
    let coordinator = Coordinator::new("ns");
    for k in 0..MAX_PARTICIPANTS as u64 {
        let name = format!("member{}", k);
        assert_eq!(coordinator.add_participant(&mut directory, &name), Ok(k));
    }
    let full = directory;
    assert_eq!(coordinator.add_participant(&mut directory, "one_too_many"), Err(Error::Full));
    assert_eq!(coordinator.get_number_of_participants(&directory), MAX_PARTICIPANTS as u64);
    assert_eq!(coordinator.get_last_participant_id(&directory), Some(63));
    assert_eq!(directory.last_participant_id, full.last_participant_id);
    assert!(directory
        .participants
        .iter()
        .zip(full.participants.iter())
        .all(|(a, b)| a.id == b.id && a.name == b.name));
    assert!(directory.is_valid());
}

#[test]
fn full_directory_answers_full_to_a_name_it_holds() {
    let mut directory = Directory::new();
    let coordinator = Coordinator::new("ns");
    for k in 0..MAX_PARTICIPANTS as u64 {
        assert_eq!(coordinator.add_participant(&mut directory, &format!("member{}", k)), Ok(k));
    }
    assert_eq!(coordinator.add_participant(&mut directory, "member3"), Err(Error::Full));
}

#[test]
fn duplicate_participant() {
    let mut directory = Directory::new();
    let coordinator = Coordinator::new("ns");
    assert_eq!(coordinator.add_participant(&mut directory, "alice"), Ok(0));
    assert_eq!(coordinator.add_participant(&mut directory, "bob"), Ok(1));
    assert_eq!(coordinator.add_participant(&mut directory, "alice"), Err(Error::Duplicate));
    assert_eq!(coordinator.add_participant(&mut directory, "bob"), Err(Error::Duplicate));
    assert_eq!(coordinator.get_number_of_participants(&directory), 2);
    assert_eq!(coordinator.add_participant(&mut directory, "carol"), Ok(2));
}

#[test]
fn duplicate_is_told_by_the_whole_name() {
    let mut directory = Directory::new();
    let coordinator = Coordinator::new("ns");
    assert_eq!(coordinator.add_participant(&mut directory, "alice"), Ok(0));
    assert_eq!(coordinator.add_participant(&mut directory, "alic"), Ok(1));
    assert_eq!(coordinator.add_participant(&mut directory, "alice2"), Ok(2));
    assert_eq!(coordinator.add_participant(&mut directory, "Alice"), Ok(3));
    assert_eq!(coordinator.add_participant(&mut directory, ""), Ok(4));
    assert_eq!(coordinator.add_participant(&mut directory, ""), Err(Error::Duplicate));
}

#[test]
fn participant_name_with_a_nul_is_stored_up_to_it() {
    let mut directory = Directory::new();
    let coordinator = Coordinator::new("ns");
    assert_eq!(coordinator.add_participant(&mut directory, "a\0b"), Ok(0));
    assert_eq!(coordinator.get_participant(&directory, 0).unwrap().get_name(), "a");
    // It is the name up to the NUL that is taken.
    assert_eq!(coordinator.add_participant(&mut directory, "a\0b"), Err(Error::Duplicate));
    assert_eq!(coordinator.add_participant(&mut directory, "a\0c"), Err(Error::Duplicate));
    assert_eq!(coordinator.add_participant(&mut directory, "a"), Err(Error::Duplicate));
    assert_eq!(coordinator.get_number_of_participants(&directory), 1);
    assert_eq!(coordinator.add_participant(&mut directory, "b\0a"), Ok(1));
    assert_eq!(directory.find_participant("b"), Some(1));
    assert_eq!(directory.find_participant("b\0zzz"), Some(1));
}

#[test]
fn participant_name_of_64_bytes_fits() {
    let mut directory = Directory::new();
    let coordinator = Coordinator::new("ns");
    let name = "p".repeat(64);
    assert_eq!(coordinator.add_participant(&mut directory, &name), Ok(0));
    assert_eq!(coordinator.get_participant(&directory, 0).unwrap().get_name(), name);
    assert_eq!(coordinator.add_participant(&mut directory, &name), Err(Error::Duplicate));
}

#[test]
fn participant_name_of_65_bytes_is_too_long() {
    let mut directory = Directory::new();
    let coordinator = Coordinator::new("ns");
    let name = "p".repeat(65);
    assert_eq!(coordinator.add_participant(&mut directory, &name), Err(Error::NameTooLong));
    assert_eq!(coordinator.get_number_of_participants(&directory), 0);
    assert!(directory.participants.iter().all(|p| p.name == [0u8; 64]));
}

#[test]
fn same_event_is_added_once() {
    let mut directory = Directory::new();
    let coordinator = Coordinator::new("ns");
    let first = coordinator.add_event(&mut directory, 5, "e").unwrap();
    assert_eq!(first.get_id(), 0);
    assert_eq!(first.get_name(), "ns_e");
    for owner in 0..4u64 {
        let again = coordinator.add_event(&mut directory, owner, "e").unwrap();
        assert_eq!(again.get_id(), 0);
        assert_eq!(again.get_name(), "ns_e");
        assert_eq!(again.name, first.name);
        assert_eq!(coordinator.get_number_of_events(&directory), 1);
    }
    assert_eq!(coordinator.get_participant_id_by_event_id(&directory, 0), Some(5));
}

#[test]
fn events_are_numbered_and_owned() {
    let mut directory = Directory::new();
    let coordinator = Coordinator::new("ns");
    for k in 0..5u64 {
        let event = coordinator.add_event(&mut directory, 100 + k, &format!("e{}", k)).unwrap();
        assert_eq!(event.get_id(), k);
        assert_eq!(event.get_name(), format!("ns_e{}", k));
        assert_eq!(coordinator.get_last_event_id(&directory), Some(k));
    }
    for k in 0..5u64 {
        assert_eq!(coordinator.get_participant_id_by_event_id(&directory, k), Some(100 + k));
        assert_eq!(directory.events[k as usize].get_name(), format!("ns_e{}", k));
        assert_eq!(directory.events[k as usize].get_id(), k);
    }
    assert_eq!(coordinator.get_number_of_participants(&directory), 0);
    assert!(directory.is_valid());
}

#[test]
fn owner_of_an_event_need_not_be_registered() {
    let mut directory = Directory::new();
    let coordinator = Coordinator::new("ns");
    assert!(coordinator.add_event(&mut directory, u64::MAX, "e").is_ok());
    assert_eq!(coordinator.get_participant_id_by_event_id(&directory, 0), Some(u64::MAX));
}

#[test]
fn events_of_two_namespaces_do_not_meet() {
    let mut directory = Directory::new();
    let ns_a = Coordinator::new("a");
    let ns_b = Coordinator::new("b");
    assert_eq!(ns_a.add_event(&mut directory, 0, "e").unwrap().get_name(), "a_e");
    assert_eq!(ns_b.add_event(&mut directory, 0, "e").unwrap().get_name(), "b_e");
    assert_eq!(ns_a.get_number_of_events(&directory), 2);
}

#[test]
fn event_table_capacity() {
    let mut directory = Directory::new();
    let coordinator = Coordinator::new("ns");
    for k in 0..MAX_EVENTS as u64 {
        let event = coordinator.add_event(&mut directory, 1, &format!("e{}", k)).unwrap();
        assert_eq!(event.get_id(), k);
    }
    assert_eq!(coordinator.add_event(&mut directory, 1, "one_too_many").err(), Some(Error::Full));
    assert_eq!(coordinator.get_number_of_events(&directory), MAX_EVENTS as u64);
    assert_eq!(coordinator.get_last_event_id(&directory), Some(63));
    // An event that the full table holds is still found.
    let held = coordinator.add_event(&mut directory, 9, "e17").unwrap();
    assert_eq!(held.get_id(), 17);
    assert_eq!(held.get_name(), "ns_e17");
    assert_eq!(coordinator.get_participant_id_by_event_id(&directory, 17), Some(1));
    assert_eq!(coordinator.get_number_of_events(&directory), MAX_EVENTS as u64);
}

#[test]
fn event_name_too_long() {
    let mut directory = Directory::new();
    let coordinator = Coordinator::new("ns");
    // "ns_" and 253 bytes fill the field exactly.
    let fits = "e".repeat(253);
    let event = coordinator.add_event(&mut directory, 0, &fits).unwrap();
    assert_eq!(event.get_name(), format!("ns_{}", fits));
    let long = "e".repeat(254);
    assert_eq!(coordinator.add_event(&mut directory, 0, &long).err(), Some(Error::NameTooLong));
    assert_eq!(coordinator.get_number_of_events(&directory), 1);
}

#[test]
fn full_event_table_answers_full_to_a_long_name() {
    let mut directory = Directory::new();
    let coordinator = Coordinator::new("ns");
    for k in 0..MAX_EVENTS as u64 {
        assert!(coordinator.add_event(&mut directory, 1, &format!("e{}", k)).is_ok());
    }
    let long = "e".repeat(300);
    assert_eq!(coordinator.add_event(&mut directory, 0, &long).err(), Some(Error::Full));
}

#[test]
fn slots_beyond_the_tables_hold_nothing() {
    let mut directory = Directory::new();
    let coordinator = Coordinator::new("ns");
    assert_eq!(coordinator.add_participant(&mut directory, "alice"), Ok(0));
    assert!(coordinator.get_participant(&directory, 64).is_none());
    assert!(coordinator.get_participant(&directory, 65).is_none());
    assert!(coordinator.get_participant(&directory, u64::MAX).is_none());
    assert_eq!(coordinator.get_participant_id_by_event_id(&directory, 64), None);
    assert_eq!(coordinator.get_participant_id_by_event_id(&directory, u64::MAX), None);
    // A slot that is not in use yet is read as it stands.
    let unused = coordinator.get_participant(&directory, 63).unwrap();
    assert_eq!(unused.id, 0);
    assert_eq!(unused.get_name(), "");
    assert_eq!(coordinator.get_participant_id_by_event_id(&directory, 63), Some(0));
}

#[test]
fn lookup_by_name() {
    let mut directory = Directory::new();
    let coordinator = Coordinator::new("ns");
    assert_eq!(directory.find_participant("alice"), None);
    assert_eq!(coordinator.add_participant(&mut directory, "alice"), Ok(0));
    assert_eq!(coordinator.add_participant(&mut directory, "bob"), Ok(1));
    assert_eq!(directory.find_participant("alice"), Some(0));
    assert_eq!(directory.find_participant("bob"), Some(1));
    assert_eq!(directory.find_participant("carol"), None);
    assert_eq!(directory.find_event("ns_e"), None);
    assert!(coordinator.add_event(&mut directory, 1, "e").is_ok());
    assert!(coordinator.add_event(&mut directory, 1, "f").is_ok());
    assert_eq!(directory.find_event("ns_f"), Some(1));
    assert_eq!(directory.find_event("f"), None);
}

#[test]
fn directory_validity() {
    let mut directory = Directory::new();
    let coordinator = Coordinator::new("ns");
    assert_eq!(coordinator.add_participant(&mut directory, "alice"), Ok(0));
    assert!(coordinator.add_event(&mut directory, 0, "e").is_ok());
    assert!(directory.is_valid());

    let mut broken = directory;
    broken.last_participant_id = 65;
    assert!(!broken.is_valid());

    let mut broken = directory;
    broken.last_event_id = 65;
    assert!(!broken.is_valid());

    let mut broken = directory;
    broken.participants[0].id = 1;
    assert!(!broken.is_valid());

    let mut broken = directory;
    broken.events[0].id = 7;
    assert!(!broken.is_valid());

    let mut broken = directory;
    broken.participants[0].name[0] = 0xff;
    assert!(!broken.is_valid());

    let mut broken = directory;
    broken.events[0].name[1] = 0xfe;
    assert!(!broken.is_valid());

    // What lies beyond the counters is not looked at.
    let mut fine = directory;
    fine.participants[1].id = 9;
    fine.events[1].name[0] = 0xff;
    assert!(fine.is_valid());
}

#[test]
fn builtin_events_are_named_after_the_namespace() {
    let coordinator = Coordinator::new("ns4");
    let event = coordinator.builtin_event(BUILTIN_EVENT_NEW_PARTICIPANT).unwrap();
    assert_eq!(event.get_name(), "ns4_mpevent_new_participant");
    assert_eq!(event.get_id(), 0);
    let event = coordinator.builtin_event(BUILTIN_EVENT_NEW_EVENT).unwrap();
    assert_eq!(event.get_name(), "ns4_mpevent_new_event");
}

#[test]
fn builtin_event_of_a_long_namespace_does_not_fit() {
    let coordinator = Coordinator::new(&"n".repeat(240));
    assert_eq!(
        coordinator.builtin_event(BUILTIN_EVENT_NEW_PARTICIPANT).err(),
        Some(Error::NameTooLong)
    );
    let coordinator = Coordinator::new(&"n".repeat(232));
    // 232 + 1 + 23 = 256 bytes.
    assert!(coordinator.builtin_event(BUILTIN_EVENT_NEW_PARTICIPANT).is_ok());
}

#[test]
fn notify_builtin_posts_a_cleared_cell() {
    let coordinator = Coordinator::new("ns");
    let event = coordinator.builtin_event(BUILTIN_EVENT_NEW_EVENT).unwrap();
    let word: &'static mut u64 = Box::leak(Box::new(0u64));
    let address = std::ptr::from_mut(word).cast::<libc::c_void>();
    let mut observer = SharedFutex::new(address);
    observer.set_futex_value(99);
    assert_eq!(coordinator.notify_builtin(&event, Some(SharedFutex::new(address))), Ok(()));
    assert_eq!(observer.get_futex_value(), 1);
}

#[test]
fn notify_builtin_without_a_cell() {
    let coordinator = Coordinator::new("ns");
    let event = coordinator.builtin_event(BUILTIN_EVENT_NEW_EVENT).unwrap();
    assert_eq!(coordinator.notify_builtin(&event, None), Err(Error::NoWaitable));
    let unnamed = Event::new();
    assert_eq!(
        coordinator.notify_builtin(&unnamed, Some(coordinator_cell())),
        Err(Error::NoWaitable)
    );
}

#[test]
fn a_registered_name_is_taken_after_a_nul_name_too() {
    let mut directory = Directory::new();
    let coordinator = Coordinator::new("ns");
    assert_eq!(coordinator.add_participant(&mut directory, "a"), Ok(0));
    assert_eq!(coordinator.add_participant(&mut directory, "a\0b"), Err(Error::Duplicate));
    assert_eq!(coordinator.add_participant(&mut directory, "a\0b"), Err(Error::Duplicate));
    assert_eq!(coordinator.get_number_of_participants(&directory), 1);
    assert_eq!(coordinator.get_participant(&directory, 1).unwrap().name, [0u8; 64]);
}

#[test]
fn event_name_with_a_nul_takes_one_slot() {
    let mut directory = Directory::new();
    let coordinator = Coordinator::new("ns");
    let first = coordinator.add_event(&mut directory, 3, "e\0x").unwrap();
    assert_eq!(first.get_name(), "ns_e");
    assert_eq!(first.get_id(), 0);
    let again = coordinator.add_event(&mut directory, 4, "e\0x").unwrap();
    assert_eq!(again.get_id(), 0);
    let plain = coordinator.add_event(&mut directory, 5, "e").unwrap();
    assert_eq!(plain.get_id(), 0);
    assert_eq!(plain.name, first.name);
    assert_eq!(coordinator.get_number_of_events(&directory), 1);
    assert_eq!(coordinator.get_participant_id_by_event_id(&directory, 0), Some(3));
    assert_eq!(directory.find_event("ns_e\0other"), Some(0));
}

#[test]
fn residual_files_begin_with_the_namespace() {
    assert!(is_residual("ns1", "ns1"));
    assert!(is_residual("ns1_mutex", "ns1"));
    assert!(is_residual("ns1_mpevent_new_event", "ns1"));
    assert!(is_residual("ns10", "ns1"));
    assert!(is_residual("anything", ""));
    assert!(!is_residual("ns", "ns1"));
    assert!(!is_residual("", "ns1"));
    assert!(!is_residual("other_ns1", "ns1"));
    assert!(!is_residual("xns1_mutex", "ns1"));
    assert!(!is_residual("ns2_mutex", "ns1"));
    assert!(is_residual("événement_e", "événement"));
    assert!(!is_residual("évènement_e", "événement"));
}

#[test]
fn well_formed_directory_is_taken_over_as_it_is() {
    let mut directory = Directory::new();
    let coordinator = Coordinator::new("ns");
    assert_eq!(coordinator.add_participant(&mut directory, "alice"), Ok(0));
    assert!(coordinator.add_event(&mut directory, 0, "e").is_ok());
    let kept = directory.or_cleared();
    assert_eq!(kept.last_participant_id, 1);
    assert_eq!(kept.last_event_id, 1);
    assert_eq!(kept.participants[0].get_name(), "alice");
    assert_eq!(kept.events[0].get_name(), "ns_e");
    assert_eq!(kept.participants[0].name, directory.participants[0].name);
}

#[test]
fn broken_directory_is_cleared() {
    let mut directory = Directory::new();
    let coordinator = Coordinator::new("ns");
    assert_eq!(coordinator.add_participant(&mut directory, "alice"), Ok(0));
    assert!(coordinator.add_event(&mut directory, 7, "e").is_ok());
    directory.last_participant_id = 99;
    let cleared = directory.or_cleared();
    assert!(cleared.is_valid());
    assert_eq!(cleared.last_participant_id, 0);
    assert_eq!(cleared.last_event_id, 0);
    assert!(cleared.participants.iter().all(|p| p.id == 0 && p.name == [0u8; 64]));
    assert!(cleared.events.iter().all(|e| e.id == 0 && e.name == [0u8; 256]));
    assert!(cleared.events_owners.iter().all(|o| *o == 0));
}

#[test]
fn new_participant_is_raised_after_a_registration_only() {
    let mut directory = Directory::new();
    let coordinator = Coordinator::new("ns");
    let registered = coordinator.add_participant(&mut directory, "alice");
    assert_eq!(
        Coordinator::raised_after_registration(&registered),
        Some(BUILTIN_EVENT_NEW_PARTICIPANT)
    );
    let refused = coordinator.add_participant(&mut directory, "alice");
    assert_eq!(refused, Err(Error::Duplicate));
    assert_eq!(Coordinator::raised_after_registration(&refused), None);
    assert_eq!(Coordinator::raised_after_registration(&Err(Error::Full)), None);
}

#[test]
fn new_event_is_raised_after_every_addition_that_ends_well() {
    let mut directory = Directory::new();
    let coordinator = Coordinator::new("ns");
    let appended = coordinator.add_event(&mut directory, 0, "e");
    assert_eq!(Coordinator::raised_after_event(&appended), Some(BUILTIN_EVENT_NEW_EVENT));
    let found = coordinator.add_event(&mut directory, 0, "e");
    assert_eq!(coordinator.get_number_of_events(&directory), 1);
    assert_eq!(Coordinator::raised_after_event(&found), Some(BUILTIN_EVENT_NEW_EVENT));
    let refused = coordinator.add_event(&mut directory, 0, &"e".repeat(300));
    assert_eq!(Coordinator::raised_after_event(&refused), None);
    let without_cell: Result<SharedFutex, Error> = Err(Error::NoWaitable);
    assert_eq!(Coordinator::raised_after_event(&without_cell), None);
}
