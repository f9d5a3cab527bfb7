use limbo::client_intent::ClientIntent;
use limbo::console_command::ConsoleCommand;
use limbo::forwarding_mode::ForwardingMode;
use limbo::memory_usage::{parse_statm, MemoryUsage};
use limbo::server_policy::ServerPolicy;

#[test]
fn given_a_command_with_surrounding_space_or_case_when_parsed_then_it_still_resolves() {
    assert_eq!(ConsoleCommand::parse("  STOP "), Some(ConsoleCommand::Stop));
}

#[test]
fn given_an_alias_when_parsed_then_it_resolves_to_the_same_command() {
    assert_eq!(ConsoleCommand::parse("ver"), Some(ConsoleCommand::Version));
    assert_eq!(
        ConsoleCommand::parse("version"),
        Some(ConsoleCommand::Version)
    );
}

#[test]
fn given_something_that_is_not_a_command_when_parsed_then_nothing_resolves() {
    assert_eq!(ConsoleCommand::parse(""), None);
    assert_eq!(ConsoleCommand::parse("halt"), None);
}

#[test]
fn given_the_command_table_when_scanned_then_no_two_commands_share_a_name() {
    let mut seen = Vec::new();
    for command in ConsoleCommand::ALL {
        for name in command.names() {
            assert!(!seen.contains(name), "{name} is claimed twice");
            seen.push(name);
        }
    }
}

#[test]
fn every_command_is_found_by_each_of_its_names_and_described() {
    for command in ConsoleCommand::ALL {
        for name in command.names() {
            assert_eq!(ConsoleCommand::parse(name), Some(command));
        }
        assert!(!command.description().is_empty());
    }
    assert_eq!(ConsoleCommand::Memory.description(), "Display memory usage");
    assert_eq!(ConsoleCommand::parse("\tMem\u{3000}"), Some(ConsoleCommand::Memory));
    assert_eq!(ConsoleCommand::parse("st op"), None);
}

#[test]
fn given_a_statm_line_when_parsed_then_the_resident_pages_are_converted_to_bytes() {
    assert_eq!(
        parse_statm("2048 512 100 1 0 200 0", 4096),
        Some(MemoryUsage {
            resident_bytes: 512 * 4096
        })
    );
}

#[test]
fn given_a_statm_line_that_makes_no_sense_when_parsed_then_nothing_is_reported() {
    assert_eq!(parse_statm("", 4096), None);
    assert_eq!(parse_statm("2048", 4096), None);
    assert_eq!(parse_statm("2048 notanumber", 4096), None);
}

#[test]
fn given_a_page_count_that_would_overflow_when_converted_then_it_saturates() {
    let usage = parse_statm(&format!("1 {}", u64::MAX), 4096);

    assert_eq!(
        usage,
        Some(MemoryUsage {
            resident_bytes: u64::MAX
        })
    );
}

#[test]
fn statm_fields_may_be_separated_by_any_whitespace_and_carry_a_plus() {
    assert_eq!(
        parse_statm("  7\t\n+3  ", 10),
        Some(MemoryUsage { resident_bytes: 30 })
    );
    assert_eq!(parse_statm("1 18446744073709551616", 1), None);
    assert_eq!(parse_statm("1 -3", 1), None);
    assert_eq!(parse_statm("1 +", 1), None);
}

#[test]
fn resident_megabytes_round_down() {
    assert_eq!(MemoryUsage { resident_bytes: 3 * 1024 * 1024 - 1 }.resident_megabytes(), 2);
    assert_eq!(MemoryUsage { resident_bytes: 3 * 1024 * 1024 }.resident_megabytes(), 3);
}

#[test]
fn intents_resolve_from_their_wire_ids() {
    assert_eq!(ClientIntent::from_id(1), Some(ClientIntent::Status));
    assert_eq!(ClientIntent::from_id(2), Some(ClientIntent::Login));
    assert_eq!(ClientIntent::from_id(3), Some(ClientIntent::Transfer));
    assert_eq!(ClientIntent::from_id(0), None);
    assert_eq!(ClientIntent::from_id(4), None);
    assert!(!ClientIntent::Status.is_join());
    assert!(ClientIntent::Login.is_join());
    assert!(ClientIntent::Transfer.is_join());
}

#[test]
fn a_policy_without_a_positive_limit_is_never_full() {
    assert!(!ServerPolicy::new(ForwardingMode::Direct, 0).is_full(1000));
    assert!(!ServerPolicy::new(ForwardingMode::Direct, -5).is_full(1000));
    let capped = ServerPolicy::new(ForwardingMode::Modern, 2);
    assert!(!capped.is_full(1));
    assert!(capped.is_full(2));
    assert!(capped.is_full(3));
    assert_eq!(capped.forwarding, ForwardingMode::Modern);
}
