use chatcore::codec::decode;
use chatcore::router::{Effect, Outbound, Router, User, OPERATOR_ID};
use chatcore::store::{AccountStore, LookupResult};

fn bytes(s: &str) -> Vec<u8> {
    s.as_bytes().to_vec()
}

fn text_of(o: &Outbound) -> Vec<u8> {
    decode(&o.frame).expect("outbound frames always decode")
}

fn three_guests() -> Router {
    let mut router = Router::new(AccountStore::new());
    assert_eq!(router.accept(), 1);
    assert_eq!(router.accept(), 2);
    assert_eq!(router.accept(), 3);
    router
}

#[test]
fn accept_assigns_monotonic_ids_and_guest_names() {
    let router = three_guests();
    assert_eq!(router.users.len(), 3);
    assert_eq!(router.users[0].username, bytes("Guest1"));
    assert_eq!(router.users[1].username, bytes("Guest2"));
    assert_eq!(router.users[2].username, bytes("Guest3"));
    assert_eq!(router.users[0].id, 1);
    assert_eq!(router.users[2].id, 3);
}

#[test]
fn guest_names_carry_multi_digit_ids() {
    let mut router = Router::new(AccountStore::new());
    for expected in 1..=12 {
        assert_eq!(router.accept(), expected);
    }
    assert_eq!(router.users[9].username, bytes("Guest10"));
    assert_eq!(router.users[11].username, bytes("Guest12"));
}

#[test]
fn user_new_keeps_name_and_id() {
    let u = User::new(&bytes("alice"), 7);
    assert_eq!(u.username, bytes("alice"));
    assert_eq!(u.id, 7);
}

#[test]
fn broadcast_reaches_everyone_but_the_sender() {
    let mut router = three_guests();
    let (out, eff) = router.handle_envelope(1, &bytes("hi"));
    assert_eq!(eff, Effect::Continue);
    assert_eq!(out.len(), 2);
    assert_eq!(out[0].recipient, 2);
    assert_eq!(out[1].recipient, 3);
    for o in &out {
        assert_eq!(text_of(o), bytes("Guest1: hi"));
    }
}

#[test]
fn broadcast_from_unknown_sender_is_dropped() {
    let mut router = three_guests();
    let (out, eff) = router.handle_envelope(9, &bytes("hi"));
    assert_eq!(eff, Effect::Continue);
    assert!(out.is_empty());
    assert_eq!(router.users.len(), 3);
}

#[test]
fn removed_user_no_longer_receives_broadcasts() {
    let mut router = three_guests();
    router.remove_user(2);
    assert_eq!(router.users.len(), 2);
    let (out, _) = router.handle_envelope(1, &bytes("hi"));
    assert_eq!(out.len(), 1);
    assert_eq!(out[0].recipient, 3);
    // removing an unknown id changes nothing
    router.remove_user(42);
    assert_eq!(router.users.len(), 2);
}

#[test]
fn whisper_reaches_only_the_target() {
    let mut router = three_guests();
    let (out, eff) = router.handle_envelope(1, &bytes("/whisper Guest3 psst hey"));
    assert_eq!(eff, Effect::Continue);
    assert_eq!(out.len(), 1);
    assert_eq!(out[0].recipient, 3);
    assert_eq!(text_of(&out[0]), bytes("Guest1 whispered: psst hey"));
}

#[test]
fn whisper_to_unknown_name_notifies_only_the_sender() {
    let mut router = three_guests();
    let (out, eff) = router.handle_envelope(1, &bytes("/whisper nonexistent hello"));
    assert_eq!(eff, Effect::Continue);
    assert_eq!(out.len(), 1);
    assert_eq!(out[0].recipient, 1);
    assert_eq!(text_of(&out[0]), bytes("Couldn't find user."));
}

#[test]
fn whisper_to_a_duplicated_name_goes_to_the_first_holder() {
    let mut store = AccountStore::new();
    store.insert(bytes("alice"), bytes("pw"));
    let mut router = Router::new(store);
    router.accept();
    router.accept();
    router.accept();
    // users 2 and 3 both log in as alice
    router.handle_envelope(2, &bytes("/login alice pw"));
    router.handle_envelope(3, &bytes("/login alice pw"));
    let (out, _) = router.handle_envelope(1, &bytes("/whisper alice hi"));
    assert_eq!(out.len(), 1);
    assert_eq!(out[0].recipient, 2);
}

#[test]
fn listall_sends_header_and_every_name_to_the_invoker() {
    let mut router = three_guests();
    let (out, _) = router.handle_envelope(2, &bytes("/listall"));
    assert_eq!(out.len(), 4);
    assert!(out.iter().all(|o| o.recipient == 2));
    assert_eq!(text_of(&out[0]), bytes("All users currently online listed:"));
    assert_eq!(text_of(&out[1]), bytes("Guest1"));
    assert_eq!(text_of(&out[2]), bytes("Guest2"));
    assert_eq!(text_of(&out[3]), bytes("Guest3"));
}

#[test]
fn ping_answers_pong() {
    let mut router = three_guests();
    let (out, _) = router.handle_envelope(3, &bytes("/ping"));
    assert_eq!(out.len(), 1);
    assert_eq!(out[0].recipient, 3);
    assert_eq!(text_of(&out[0]), bytes("pong"));
}

#[test]
fn aboutme_reports_name_and_id() {
    let mut router = three_guests();
    let (out, _) = router.handle_envelope(2, &bytes("/aboutme"));
    assert_eq!(out.len(), 1);
    assert_eq!(out[0].recipient, 2);
    assert_eq!(text_of(&out[0]), bytes("Username: Guest2, ID: 2"));
}

#[test]
fn login_with_correct_password_renames() {
    let mut store = AccountStore::new();
    store.insert(bytes("alice"), bytes("secret"));
    let mut router = Router::new(store);
    router.accept();
    let (out, _) = router.handle_envelope(1, &bytes("/login alice secret"));
    assert_eq!(out.len(), 1);
    assert_eq!(out[0].recipient, 1);
    assert_eq!(text_of(&out[0]), bytes("Welcome back alice"));
    assert_eq!(router.users[0].username, bytes("alice"));
}

#[test]
fn login_with_wrong_password_fails() {
    let mut store = AccountStore::new();
    store.insert(bytes("alice"), bytes("secret"));
    let mut router = Router::new(store);
    router.accept();
    let (out, _) = router.handle_envelope(1, &bytes("/login alice nope"));
    assert_eq!(out.len(), 1);
    assert_eq!(
        text_of(&out[0]),
        bytes("Log in failed. Incorrect username/password.")
    );
    assert_eq!(router.users[0].username, bytes("Guest1"));
}

#[test]
fn login_with_missing_account_fails() {
    let mut router = three_guests();
    let (out, _) = router.handle_envelope(1, &bytes("/login ghost pw"));
    assert_eq!(out.len(), 1);
    assert_eq!(
        text_of(&out[0]),
        bytes("Log in failed. Incorrect username/password.")
    );
}

#[test]
fn incomplete_login_gets_a_usage_frame() {
    let mut router = three_guests();
    let (out, _) = router.handle_envelope(1, &bytes("/login alice"));
    assert_eq!(out.len(), 1);
    assert_eq!(out[0].recipient, 1);
    assert_eq!(
        text_of(&out[0]),
        bytes("Wrong format. Use /login <user> <password>")
    );
}

#[test]
fn create_on_taken_username_is_a_no_op() {
    let mut store = AccountStore::new();
    store.insert(bytes("alice"), bytes("secret"));
    let mut router = Router::new(store);
    router.accept();
    let (out, _) = router.handle_envelope(1, &bytes("/create alice other"));
    assert_eq!(out.len(), 1);
    assert_eq!(text_of(&out[0]), bytes("Account already exists"));
    assert_eq!(router.store.records.len(), 1);
    assert_eq!(router.users[0].username, bytes("Guest1"));
}

#[test]
fn unknown_verb_produces_no_frames() {
    let mut router = three_guests();
    let (out, eff) = router.handle_envelope(1, &bytes("/dance"));
    assert_eq!(eff, Effect::Continue);
    assert!(out.is_empty());
}

#[test]
fn command_from_unknown_sender_is_dropped() {
    let mut router = three_guests();
    let (out, eff) = router.handle_envelope(9, &bytes("/ping"));
    assert_eq!(eff, Effect::Continue);
    assert!(out.is_empty());
}

#[test]
fn stop_from_a_client_is_ignored() {
    let mut router = three_guests();
    let (out, eff) = router.handle_envelope(1, &bytes("/stop"));
    assert_eq!(eff, Effect::Continue);
    assert!(out.is_empty());
}

#[test]
fn operator_stop_notifies_everyone_and_shuts_down() {
    let mut router = three_guests();
    let (out, eff) = router.handle_envelope(OPERATOR_ID, &bytes("/stop"));
    assert_eq!(eff, Effect::Shutdown);
    assert_eq!(out.len(), 3);
    for (o, id) in out.iter().zip([1, 2, 3]) {
        assert_eq!(o.recipient, id);
        assert_eq!(
            text_of(o),
            bytes("Server is closing. No messages will be sent.")
        );
    }
    // what would be persisted equals what is in memory
    let reloaded = AccountStore::from_bytes(&router.store.to_bytes());
    assert_eq!(reloaded.records.len(), router.store.records.len());
}

#[test]
fn three_client_create_and_chat_scenario() {
    let mut router = Router::new(AccountStore::new());
    assert_eq!(router.accept(), 1);
    assert_eq!(router.accept(), 2);
    assert_eq!(router.accept(), 3);
    assert_eq!(router.users[0].username, bytes("Guest1"));
    assert_eq!(router.users[1].username, bytes("Guest2"));
    assert_eq!(router.users[2].username, bytes("Guest3"));

    // client 1 creates an account
    let (out, eff) = router.handle_envelope(1, &bytes("/create alice secret"));
    assert_eq!(eff, Effect::Continue);
    assert_eq!(router.store.records.len(), 1);
    assert_eq!(router.store.records[0].username, bytes("alice"));
    assert_eq!(router.store.records[0].password, bytes("secret"));
    assert_eq!(router.users[0].username, bytes("alice"));
    assert_eq!(out.len(), 1);
    assert_eq!(out[0].recipient, 1);
    assert_eq!(text_of(&out[0]), bytes("Welcome alice. Account created."));

    // client 2 sends plain text
    let (out, eff) = router.handle_envelope(2, &bytes("hi"));
    assert_eq!(eff, Effect::Continue);
    assert_eq!(out.len(), 2);
    assert_eq!(out[0].recipient, 1);
    assert_eq!(out[1].recipient, 3);
    for o in &out {
        assert_eq!(text_of(o), bytes("Guest2: hi"));
    }
}

#[test]
fn created_account_is_found_by_lookup() {
    let mut router = Router::new(AccountStore::new());
    router.accept();
    router.handle_envelope(1, &bytes("/create bob pw"));
    assert_eq!(
        router.store.lookup(&bytes("bob"), &bytes("pw")),
        LookupResult::ExistsCorrectPassword
    );
    assert_eq!(
        router.store.lookup(&bytes("bob"), &bytes("nope")),
        LookupResult::ExistsWrongPassword
    );
}
