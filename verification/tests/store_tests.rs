use chatcore::store::{account_exists, create_user, AccountStore, LookupResult};

fn bytes(s: &str) -> Vec<u8> {
    s.as_bytes().to_vec()
}

#[test]
fn lookup_on_empty_store_is_absent() {
    let store = AccountStore::new();
    assert_eq!(
        store.lookup(&bytes("anyone"), &bytes("anything")),
        LookupResult::Absent
    );
    assert_eq!(store.lookup(&bytes(""), &bytes("")), LookupResult::Absent);
}

#[test]
fn insert_then_lookup_three_ways() {
    let mut store = AccountStore::new();
    store.insert(bytes("bob"), bytes("pw"));
    assert_eq!(
        store.lookup(&bytes("bob"), &bytes("pw")),
        LookupResult::ExistsCorrectPassword
    );
    assert_eq!(
        store.lookup(&bytes("bob"), &bytes("wrong")),
        LookupResult::ExistsWrongPassword
    );
    assert_eq!(
        store.lookup(&bytes("alice"), &bytes("pw")),
        LookupResult::Absent
    );
}

#[test]
fn first_record_with_username_decides() {
    let mut store = AccountStore::new();
    store.insert(bytes("bob"), bytes("first"));
    store.insert(bytes("bob"), bytes("second"));
    assert_eq!(
        store.lookup(&bytes("bob"), &bytes("first")),
        LookupResult::ExistsCorrectPassword
    );
    assert_eq!(
        store.lookup(&bytes("bob"), &bytes("second")),
        LookupResult::ExistsWrongPassword
    );
}

#[test]
fn serialize_uses_key_value_line_layout() {
    let mut store = AccountStore::new();
    store.insert(bytes("alice"), bytes("secret"));
    assert_eq!(store.to_bytes(), bytes("username=alice;password=secret"));
    store.insert(bytes("bob"), bytes("pw"));
    assert_eq!(
        store.to_bytes(),
        bytes("username=alice;password=secret\nusername=bob;password=pw")
    );
}

#[test]
fn parse_reads_key_value_lines() {
    let store = AccountStore::from_bytes(&bytes(
        "username=alice;password=secret\nusername=bob;password=pw",
    ));
    assert_eq!(store.records.len(), 2);
    assert_eq!(
        store.lookup(&bytes("alice"), &bytes("secret")),
        LookupResult::ExistsCorrectPassword
    );
    assert_eq!(
        store.lookup(&bytes("bob"), &bytes("pw")),
        LookupResult::ExistsCorrectPassword
    );
}

#[test]
fn parse_skips_lines_without_both_keys() {
    let store = AccountStore::from_bytes(&bytes("NaN\n\nusername=solo\nusername=eve;password=x"));
    assert_eq!(store.records.len(), 1);
    assert_eq!(
        store.lookup(&bytes("eve"), &bytes("x")),
        LookupResult::ExistsCorrectPassword
    );
    assert_eq!(store.lookup(&bytes("solo"), &bytes("")), LookupResult::Absent);
}

#[test]
fn parse_of_empty_file_is_empty_store() {
    let store = AccountStore::from_bytes(&bytes(""));
    assert_eq!(store.records.len(), 0);
}

#[test]
fn store_round_trips_through_bytes() {
    let mut store = AccountStore::new();
    store.insert(bytes("alice"), bytes("secret"));
    store.insert(bytes("bob"), bytes("p=w"));
    store.insert(bytes(""), bytes(""));
    let reloaded = AccountStore::from_bytes(&store.to_bytes());
    assert_eq!(reloaded.records.len(), 3);
    for (a, b) in store.records.iter().zip(reloaded.records.iter()) {
        assert_eq!(a.username, b.username);
        assert_eq!(a.password, b.password);
    }
}

#[test]
fn account_exists_reports_both_flags() {
    let file = bytes("username=alice;password=secret\nusername=bob;password=pw");
    assert_eq!(account_exists(&file, &bytes("alice"), &bytes("secret")), (true, true));
    assert_eq!(account_exists(&file, &bytes("alice"), &bytes("nope")), (true, false));
    assert_eq!(account_exists(&file, &bytes("carol"), &bytes("x")), (false, false));
}

#[test]
fn create_user_appends_a_parseable_line() {
    let mut file = bytes("username=alice;password=secret");
    create_user(&mut file, &bytes("bob"), &bytes("pw"));
    assert_eq!(
        file,
        bytes("username=alice;password=secret\nusername=bob;password=pw")
    );
    assert_eq!(account_exists(&file, &bytes("bob"), &bytes("pw")), (true, true));
}

#[test]
fn create_user_on_junk_file_still_registers() {
    let mut file = bytes("NaN");
    create_user(&mut file, &bytes("bob"), &bytes("pw"));
    assert_eq!(account_exists(&file, &bytes("bob"), &bytes("pw")), (true, true));
}
