use badge_kiosk::dispatch::{
    decide_tap, resolve_printer, CheckinOutcome, DropReason, TapContext, TapDecision,
};
use badge_kiosk::pool::PoolTable;
use badge_kiosk::registry::{PrinterInfo, PrinterRegistry, RegistryError};
use badge_kiosk::roundrobin::RoundRobinTable;
use badge_kiosk::snapshot::{capture_pool, capture_round_robin};

fn printer(serial: &str) -> PrinterInfo {
    PrinterInfo {
        manufacturer: String::from("Brother"),
        model: String::from("QL-700"),
        serial_number: String::from(serial),
    }
}

fn two_printer_registry() -> PrinterRegistry {
    PrinterRegistry::new(vec![printer("A"), printer("B")]).unwrap()
}

#[test]
fn empty_registry_is_fatal() {
    let r = PrinterRegistry::new(Vec::new());
    assert!(matches!(r, Err(RegistryError::NoPrinters)));
}

#[test]
fn duplicate_serial_is_fatal() {
    let r = PrinterRegistry::new(vec![printer("A"), printer("B"), printer("A")]);
    assert!(matches!(r, Err(RegistryError::DuplicateSerial)));
}

#[test]
fn registry_lookup() {
    let reg = two_printer_registry();
    assert_eq!(reg.len(), 2);
    assert_eq!(reg.serial_at(0).as_str(), "A");
    assert_eq!(reg.serial_at(1).as_str(), "B");
    assert_eq!(reg.index_of(&String::from("B")), Some(1));
    assert_eq!(reg.index_of(&String::from("C")), None);
}

#[test]
fn round_robin_assigns_in_connect_order() {
    let reg = two_printer_registry();
    let mut table = RoundRobinTable::new();
    let first = table.record_connect(&reg, &String::from("R1"));
    let second = table.record_connect(&reg, &String::from("R2"));
    let third = table.record_connect(&reg, &String::from("R3"));
    assert_eq!(first.as_deref(), Some("A"));
    assert_eq!(second.as_deref(), Some("B"));
    assert_eq!(third.as_deref(), Some("A"));
}

#[test]
fn round_robin_assignment_survives_reconnect() {
    let reg = two_printer_registry();
    let mut table = RoundRobinTable::new();
    table.record_connect(&reg, &String::from("R1"));
    table.record_connect(&reg, &String::from("R2"));
    table.record_disconnect(&reg, &String::from("R1"));
    assert_eq!(
        table.lookup_assignment(&String::from("R1")).as_deref(),
        Some("A")
    );
    let back = table.record_connect(&reg, &String::from("R1"));
    assert_eq!(back.as_deref(), Some("A"));
}

#[test]
fn connected_flag_follows_last_event() {
    let reg = two_printer_registry();
    let mut table = RoundRobinTable::new();
    let name = String::from("R1");
    table.record_connect(&reg, &name);
    table.record_disconnect(&reg, &name);
    table.record_connect(&reg, &name);
    table.record_disconnect(&reg, &name);
    let rows = table.snapshot_readers();
    assert_eq!(rows.len(), 1);
    assert_eq!(rows[0].name.as_str(), "R1");
    assert!(!rows[0].connected);
    table.record_connect(&reg, &name);
    let rows = table.snapshot_readers();
    assert!(rows[0].connected);
}

#[test]
fn pool_claims_front_and_releases_to_back() {
    let reg = two_printer_registry();
    let mut table = PoolTable::new(&reg);
    assert_eq!(table.free_printers(), 2);
    let r1 = table.record_connect(&String::from("R1"));
    let r2 = table.record_connect(&String::from("R2"));
    let r3 = table.record_connect(&String::from("R3"));
    assert_eq!(r1.as_deref(), Some("A"));
    assert_eq!(r2.as_deref(), Some("B"));
    assert_eq!(r3, None);
    assert_eq!(table.free_printers(), 0);

    table.record_disconnect(&String::from("R1"));
    assert_eq!(table.free_printers(), 1);
    let r4 = table.record_connect(&String::from("R4"));
    assert_eq!(r4.as_deref(), Some("A"));
}

#[test]
fn pool_double_connect_keeps_assignment() {
    let reg = two_printer_registry();
    let mut table = PoolTable::new(&reg);
    let first = table.record_connect(&String::from("R1"));
    let again = table.record_connect(&String::from("R1"));
    assert_eq!(first.as_deref(), Some("A"));
    assert_eq!(again.as_deref(), Some("A"));
    assert_eq!(table.free_printers(), 1);
}

#[test]
fn round_robin_first_event_may_be_a_disconnect() {
    let reg = two_printer_registry();
    let mut table = RoundRobinTable::new();
    table.record_disconnect(&reg, &String::from("R1"));
    let rows = table.snapshot_readers();
    assert_eq!(rows.len(), 1);
    assert!(!rows[0].connected);
    assert_eq!(rows[0].assigned_printer.as_deref(), Some("A"));
}

#[test]
fn pool_accounts_for_every_printer() {
    let reg = two_printer_registry();
    let mut table = PoolTable::new(&reg);
    table.record_connect(&String::from("R1"));
    table.record_disconnect(&String::from("R1"));
    table.record_connect(&String::from("R2"));
    let assigned: Vec<String> = table
        .snapshot_readers()
        .into_iter()
        .filter_map(|r| r.assigned_printer)
        .collect();
    assert_eq!(assigned.len() + table.free_printers(), reg.len());
    assert_eq!(assigned, vec![String::from("B")]);
}

#[test]
fn pool_removes_disconnected_rows() {
    let reg = two_printer_registry();
    let mut table = PoolTable::new(&reg);
    table.record_connect(&String::from("R1"));
    table.record_disconnect(&String::from("R1"));
    assert!(table.snapshot_readers().is_empty());
    assert_eq!(table.lookup_assignment(&String::from("R1")), None);
}

#[test]
fn resolve_printer_reports_both_routing_failures() {
    let reg = two_printer_registry();
    assert_eq!(resolve_printer(&None, &reg), Err(DropReason::NoAssignment));
    assert_eq!(
        resolve_printer(&Some(String::from("GONE")), &reg),
        Err(DropReason::UnknownPrinter)
    );
    assert_eq!(resolve_printer(&Some(String::from("B")), &reg), Ok(1));
}

#[test]
fn failed_decode_drops_without_printing() {
    let reg = two_printer_registry();
    let d = decide_tap(&TapContext::DecodeFailed, &Some(String::from("A")), &reg);
    match d {
        TapDecision::Drop { reason } => assert_eq!(reason, DropReason::BadgeDecodeFailed),
        TapDecision::Print { .. } => panic!("a failed decode must never print"),
    }
}

#[test]
fn unknown_user_and_api_errors_drop() {
    let reg = two_printer_registry();
    let unknown = decide_tap(
        &TapContext::CheckedIn { outcome: CheckinOutcome::UnknownUser },
        &Some(String::from("A")),
        &reg,
    );
    assert!(matches!(
        unknown,
        TapDecision::Drop { reason: DropReason::UnknownUser }
    ));
    let failed = decide_tap(
        &TapContext::CheckedIn { outcome: CheckinOutcome::Failure },
        &Some(String::from("A")),
        &reg,
    );
    assert!(matches!(
        failed,
        TapDecision::Drop { reason: DropReason::CheckinFailed }
    ));
}

#[test]
fn unassigned_reader_drops_exactly_once() {
    let reg = two_printer_registry();
    let d = decide_tap(
        &TapContext::CheckedIn {
            outcome: CheckinOutcome::Success { display_name: String::from("Ada Lovelace") },
        },
        &None,
        &reg,
    );
    assert!(matches!(
        d,
        TapDecision::Drop { reason: DropReason::NoAssignment }
    ));
}

#[test]
fn stale_assignment_drops() {
    let reg = two_printer_registry();
    let d = decide_tap(
        &TapContext::CheckedIn {
            outcome: CheckinOutcome::Success { display_name: String::from("Ada Lovelace") },
        },
        &Some(String::from("UNPLUGGED")),
        &reg,
    );
    assert!(matches!(
        d,
        TapDecision::Drop { reason: DropReason::UnknownPrinter }
    ));
}

#[test]
fn successful_tap_prints_the_checked_in_name() {
    let reg = two_printer_registry();
    let d = decide_tap(
        &TapContext::CheckedIn {
            outcome: CheckinOutcome::Success { display_name: String::from("Ada Lovelace") },
        },
        &Some(String::from("B")),
        &reg,
    );
    match d {
        TapDecision::Print { printer_index, label_name } => {
            assert_eq!(printer_index, 1);
            assert_eq!(label_name.as_str(), "Ada Lovelace");
        }
        TapDecision::Drop { .. } => panic!("a routable successful check-in must print"),
    }
}

#[test]
fn example_scenario_two_printers_three_readers() {
    let reg = two_printer_registry();
    let mut table = RoundRobinTable::new();
    table.record_connect(&reg, &String::from("R1"));
    table.record_connect(&reg, &String::from("R2"));
    table.record_connect(&reg, &String::from("R3"));
    assert_eq!(
        table.lookup_assignment(&String::from("R1")).as_deref(),
        Some("A")
    );
    assert_eq!(
        table.lookup_assignment(&String::from("R2")).as_deref(),
        Some("B")
    );
    assert_eq!(
        table.lookup_assignment(&String::from("R3")).as_deref(),
        Some("A")
    );

    table.record_disconnect(&reg, &String::from("R1"));
    table.record_connect(&reg, &String::from("R1"));
    assert_eq!(
        table.lookup_assignment(&String::from("R1")).as_deref(),
        Some("A")
    );

    let assignment = table.lookup_assignment(&String::from("R3"));
    let d = decide_tap(&TapContext::DecodeFailed, &assignment, &reg);
    assert!(matches!(
        d,
        TapDecision::Drop { reason: DropReason::BadgeDecodeFailed }
    ));
}

#[test]
fn snapshot_reflects_both_structures() {
    let reg = two_printer_registry();
    let mut table = RoundRobinTable::new();
    table.record_connect(&reg, &String::from("R1"));
    table.record_disconnect(&reg, &String::from("R1"));
    table.record_connect(&reg, &String::from("R2"));

    let snap = capture_round_robin(&reg, &table);
    assert_eq!(snap.printers.len(), 2);
    assert_eq!(snap.printers[0].serial_number.as_str(), "A");
    assert_eq!(snap.printers[1].model.as_str(), "QL-700");
    assert_eq!(snap.readers.len(), 2);
    assert_eq!(snap.readers[0].name.as_str(), "R1");
    assert!(!snap.readers[0].connected);
    assert_eq!(snap.readers[0].assigned_printer.as_deref(), Some("A"));
    assert!(snap.readers[1].connected);
    assert_eq!(snap.readers[1].assigned_printer.as_deref(), Some("B"));
}

#[test]
fn pool_snapshot_reflects_claims() {
    let reg = two_printer_registry();
    let mut table = PoolTable::new(&reg);
    table.record_connect(&String::from("R1"));
    let snap = capture_pool(&reg, &table);
    assert_eq!(snap.printers.len(), 2);
    assert_eq!(snap.readers.len(), 1);
    assert_eq!(snap.readers[0].name.as_str(), "R1");
    assert!(snap.readers[0].connected);
    assert_eq!(snap.readers[0].assigned_printer.as_deref(), Some("A"));
}
