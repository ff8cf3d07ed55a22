use ticket_randomizer::form::RandomizerApp;

fn ready_form() -> RandomizerApp {
    let mut form = RandomizerApp::default();
    form.capital_letters = true;
    form.numbers = true;
    form.rejected_chars = "AEIOU0".to_string();
    form.ticket_count = 3;
    form.ticket_length = 4;
    form.file_path = Some("out.csv".to_string());
    form
}

#[test]
fn default_form_is_blank_and_idle() {
    let form = RandomizerApp::default();
    assert!(!form.capital_letters && !form.lowercase_letters && !form.numbers && !form.specials);
    assert_eq!(form.rejected_chars, "");
    assert_eq!(form.ticket_count, 0);
    assert_eq!(form.ticket_count_str, "");
    assert_eq!(form.ticket_length, 0);
    assert_eq!(form.ticket_length_str, "");
    assert_eq!(form.file_path, None);
    assert!(!form.is_processing);
    assert_eq!(form.last_thread_message, "");
}

#[test]
fn form_builds_its_alphabet() {
    assert_eq!(ready_form().build_character_set(), "BCDFGHJKLMNPQRSTVWXYZ123456789");
    assert_eq!(RandomizerApp::default().build_character_set(), "");
}

#[test]
fn ready_form_starts_a_run() {
    let mut form = ready_form();
    let request = form.start_processing().unwrap();
    assert_eq!(request.character_set, "BCDFGHJKLMNPQRSTVWXYZ123456789");
    assert_eq!(request.file_path, "out.csv");
    assert_eq!(request.token_count, 3);
    assert_eq!(request.token_length, 4);
    assert!(form.is_processing);
    assert_eq!(form.last_thread_message, "");
    assert_eq!(form.file_path, Some("out.csv".to_string()));
}

#[test]
fn second_run_is_refused_while_one_is_under_way() {
    let mut form = ready_form();
    assert!(form.start_processing().is_some());
    assert!(form.start_processing().is_none());
    assert!(form.is_processing);
}

#[test]
fn zero_count_starts_nothing() {
    let mut form = ready_form();
    form.ticket_count = 0;
    assert!(form.start_processing().is_none());
    assert!(!form.is_processing);
    assert_eq!(form.last_thread_message, "");
}

#[test]
fn zero_length_starts_nothing() {
    let mut form = ready_form();
    form.ticket_length = 0;
    assert!(form.start_processing().is_none());
    assert!(!form.is_processing);
    assert_eq!(form.last_thread_message, "");
}

#[test]
fn no_class_starts_nothing() {
    let mut form = ready_form();
    form.capital_letters = false;
    form.numbers = false;
    assert!(form.start_processing().is_none());
    assert!(!form.is_processing);
    assert_eq!(form.last_thread_message, "");
}

#[test]
fn everything_excluded_starts_nothing() {
    let mut form = ready_form();
    form.capital_letters = false;
    form.rejected_chars = "0123456789".to_string();
    assert!(form.start_processing().is_none());
    assert!(!form.is_processing);
}

#[test]
fn no_destination_starts_nothing() {
    let mut form = ready_form();
    form.file_path = None;
    assert!(form.start_processing().is_none());
    assert!(!form.is_processing);
    assert_eq!(form.last_thread_message, "");
}

#[test]
fn finished_run_frees_the_form_and_shows_the_report() {
    let mut form = ready_form();
    form.start_processing().unwrap();
    form.finish_processing("Successfully wrote to CSV".to_string());
    assert!(!form.is_processing);
    assert_eq!(form.last_thread_message, "Successfully wrote to CSV");
    assert!(form.start_processing().is_some());
}

#[test]
fn chosen_destination_is_kept() {
    let mut form = RandomizerApp::default();
    form.choose_destination("/tmp/tickets.csv".to_string());
    assert_eq!(form.file_path, Some("/tmp/tickets.csv".to_string()));
    form.choose_destination("other.csv".to_string());
    assert_eq!(form.file_path, Some("other.csv".to_string()));
}

#[test]
fn count_field_is_taken_over_when_it_is_a_number() {
    let mut form = RandomizerApp::default();
    form.ticket_count = 7;
    form.ticket_count_str = "120".to_string();
    form.commit_ticket_count();
    assert_eq!(form.ticket_count, 120);
    assert_eq!(form.ticket_count_str, "120");
}

#[test]
fn count_field_goes_back_when_it_is_no_number() {
    let mut form = RandomizerApp::default();
    form.ticket_count = 7;
    form.ticket_count_str = "12x".to_string();
    form.commit_ticket_count();
    assert_eq!(form.ticket_count, 7);
    assert_eq!(form.ticket_count_str, "7");
}

#[test]
fn length_field_is_taken_over_when_it_is_a_number() {
    let mut form = RandomizerApp::default();
    form.ticket_length_str = "+8".to_string();
    form.commit_ticket_length();
    assert_eq!(form.ticket_length, 8);
    assert_eq!(form.ticket_length_str, "+8");
}

#[test]
fn length_field_goes_back_when_it_is_no_number() {
    let mut form = RandomizerApp::default();
    form.ticket_length = 16;
    form.ticket_length_str = "".to_string();
    form.commit_ticket_length();
    assert_eq!(form.ticket_length, 16);
    assert_eq!(form.ticket_length_str, "16");
    form.ticket_length_str = "-3".to_string();
    form.commit_ticket_length();
    assert_eq!(form.ticket_length, 16);
    assert_eq!(form.ticket_length_str, "16");
}
