use notes_engine::admin::{change_password, create, login, promote, AdminOutcome, SignIn};
use notes_engine::logins::{DefaultAdmin, Login, Logins};

fn plain(name: &str, admin: bool, hashword: &str) -> Login {
    Login { name: name.to_string(), admin, hashword: hashword.to_string() }
}

fn hashed(name: &str, admin: bool, password: &str) -> Login {
    Login::new(name, admin, password).expect("hashing works here")
}

#[test]
fn new_login_verifies_its_password_only() {
    let l = hashed("alice", false, "secret");
    assert_eq!(l.name, "alice");
    assert!(!l.admin);
    assert_ne!(l.hashword, "secret");
    assert!(l.hashword.starts_with("$2b$12$"));
    assert!(l.verify("secret"));
    assert!(!l.verify("Secret"));
    assert_eq!(l.try_verify("secret"), Some(true));
    assert_eq!(l.try_verify("other"), Some(false));
}

#[test]
fn unreadable_hash_is_reported() {
    let l = plain("bob", false, "not a bcrypt hash");
    assert_eq!(l.try_verify("anything"), None);
}

#[test]
fn get_after_set_reads_the_latest_record() {
    let mut t = Logins::new();
    assert!(t.get_login("bob").is_none());
    t.set_login(&plain("bob", false, "h1"));
    t.set_login(&plain("carol", true, "h2"));
    t.set_login(&plain("bob", true, "h3"));
    assert_eq!(t.get_login("bob"), Some(plain("bob", true, "h3")));
    assert_eq!(t.get_login("carol"), Some(plain("carol", true, "h2")));
    assert!(t.get_login("dave").is_none());
    assert!(t.is_admin("bob"));
    assert!(t.is_admin("carol"));
    assert!(!t.is_admin("dave"));
    assert!(t.user_is_admin(Some("bob")));
    assert!(!t.user_is_admin(None));
}

#[test]
fn login_map_lists_each_name_once() {
    let t = Logins::from_records(vec![
        plain("bob", false, "h1"),
        plain("carol", true, "h2"),
        plain("bob", true, "h3"),
    ]);
    let mut all = t.get_logins();
    all.sort_by(|a, b| a.name.cmp(&b.name));
    assert_eq!(all, vec![plain("bob", true, "h3"), plain("carol", true, "h2")]);
    assert_eq!(t.login_map().len(), 2);
    assert!(Logins::new().get_logins().is_empty());
}

#[test]
fn csv_rows_become_records_after_the_header_row() {
    let data = b"first,true,h0\nbob,false,h1\ncarol,true,h2\n";
    let t = Logins::try_from_csv(data).expect("decodes");
    assert_eq!(Logins::from_csv(data).get_logins().len(), 2);
    // the default reader takes the first row as a header row
    assert!(t.get_login("first").is_none());
    assert_eq!(t.get_login("bob"), Some(plain("bob", false, "h1")));
    assert_eq!(t.get_login("carol"), Some(plain("carol", true, "h2")));
    assert!(Logins::try_from_csv(b"").unwrap().get_logins().is_empty());
}

#[test]
fn csv_with_a_bad_row_is_refused() {
    assert!(Logins::try_from_csv(b"a,b,c\nbob,maybe,h1\n").is_none());
    assert!(Logins::try_from_csv(b"a,b,c\nbob,true\n").is_none());
}

#[test]
fn csv_record_of_a_login() {
    let l = plain("bob", true, "$2b$12$abc./xyz");
    assert_eq!(l.to_csv_record().unwrap(), b"bob,true,$2b$12$abc./xyz\n".to_vec());
    let q = plain("a,b", false, "h");
    assert_eq!(q.to_csv_record().unwrap(), b"\"a,b\",false,h\n".to_vec());
}

#[test]
fn default_admin_is_created_once_and_signs_in() {
    let mut t = Logins::new();
    let created = match t.ensure_default_admin() {
        DefaultAdmin::Created(a) => a,
        _ => panic!("the default administrator is created"),
    };
    assert_eq!(created.name, "admin");
    assert!(created.admin);
    assert!(created.verify("password"));
    assert!(matches!(t.ensure_default_admin(), DefaultAdmin::InForce));
    assert_eq!(t.get_logins().len(), 1);
    match login(&t, Some("admin"), Some("password")) {
        SignIn::Accepted(name) => assert_eq!(name, "admin"),
        _ => panic!("admin signs in"),
    }
    assert!(t.is_admin("admin"));
}

#[test]
fn default_admin_leaves_a_filled_table_alone() {
    let mut t = Logins::from_records(vec![plain("bob", false, "h")]);
    assert!(matches!(t.ensure_default_admin(), DefaultAdmin::InForce));
    assert!(t.get_login("admin").is_none());
}

#[test]
fn sign_in_decisions() {
    let t = Logins::from_records(vec![hashed("alice", false, "pw"), plain("bad", false, "xx")]);
    assert!(matches!(login(&t, Some("alice"), Some("pw")), SignIn::Accepted(ref n) if n == "alice"));
    assert!(matches!(login(&t, Some("alice"), Some("wrong")), SignIn::Refused));
    assert!(matches!(login(&t, Some("nobody"), Some("pw")), SignIn::Refused));
    assert!(matches!(login(&t, Some("alice"), None), SignIn::Refused));
    assert!(matches!(login(&t, None, Some("pw")), SignIn::Refused));
    assert!(matches!(login(&t, Some("bad"), Some("pw")), SignIn::UnreadableHash));
}

#[test]
fn only_administrators_create_users() {
    let mut t = Logins::from_records(vec![plain("root", true, "h"), plain("bob", false, "h")]);
    assert!(matches!(create(&mut t, "bob", Some("eve"), Some("pw")), AdminOutcome::Unauthorized));
    assert!(t.get_login("eve").is_none());
    match create(&mut t, "root", Some("eve"), Some("pw")) {
        AdminOutcome::Stored(l) => {
            assert_eq!(l.name, "eve");
            assert!(!l.admin);
            assert!(l.verify("pw"));
        }
        _ => panic!("created"),
    }
    assert!(t.get_login("eve").unwrap().verify("pw"));
    // an existing user is never replaced
    assert!(matches!(create(&mut t, "root", Some("bob"), Some("pw")), AdminOutcome::Unchanged));
    assert_eq!(t.get_login("bob"), Some(plain("bob", false, "h")));
    assert!(matches!(create(&mut t, "root", Some("zed"), None), AdminOutcome::Unchanged));
    assert!(t.get_login("zed").is_none());
}

#[test]
fn promotion_by_an_administrator() {
    let mut t = Logins::from_records(vec![plain("root", true, "hr"), plain("bob", false, "hb")]);
    assert!(matches!(promote(&mut t, "bob", Some("bob")), AdminOutcome::Unauthorized));
    assert!(!t.is_admin("bob"));
    assert!(matches!(promote(&mut t, "nobody", Some("bob")), AdminOutcome::Unauthorized));
    match promote(&mut t, "root", Some("bob")) {
        AdminOutcome::Stored(l) => assert_eq!(l, plain("bob", true, "hb")),
        _ => panic!("promoted"),
    }
    assert!(t.is_admin("bob"));
    assert_eq!(t.get_login("bob").unwrap().hashword, "hb");
    assert!(matches!(promote(&mut t, "root", None), AdminOutcome::Unchanged));
}

#[test]
fn password_change_needs_the_old_password() {
    let mut t = Logins::from_records(vec![hashed("alice", true, "old")]);
    assert!(matches!(change_password(&mut t, Some("alice"), Some("wrong"), Some("new")), AdminOutcome::Unchanged));
    assert!(t.get_login("alice").unwrap().verify("old"));
    match change_password(&mut t, Some("alice"), Some("old"), Some("new")) {
        AdminOutcome::Stored(l) => {
            assert_eq!(l.name, "alice");
            assert!(l.admin);
        }
        _ => panic!("changed"),
    }
    let now = t.get_login("alice").unwrap();
    assert!(now.verify("new"));
    assert!(!now.verify("old"));
    assert!(now.admin);
    assert!(matches!(change_password(&mut t, None, None, Some("x")), AdminOutcome::Unchanged));
}

#[test]
fn password_change_with_unreadable_hash() {
    let mut t = Logins::from_records(vec![plain("bad", false, "xx")]);
    assert!(matches!(change_password(&mut t, Some("bad"), Some("a"), Some("b")), AdminOutcome::UnreadableHash));
    assert_eq!(t.get_logins().len(), 1);
}

#[test]
fn loading_a_user_file() {
    // no file: the default administrator is made
    match Logins::load(None) {
        Some((t, DefaultAdmin::Created(a))) => {
            assert_eq!(a.name, "admin");
            assert_eq!(t.get_logins().len(), 1);
        }
        _ => panic!("the default administrator is made"),
    }
    // a file holding only its header row reads as empty: the default administrator is made
    match Logins::load(Some(b"first,true,h0\n")) {
        Some((t, DefaultAdmin::Created(_))) => assert!(t.is_admin("admin")),
        _ => panic!("the default administrator is made"),
    }
    // a file with records keeps them
    match Logins::load(Some(b"first,true,h0\nbob,false,h1\n")) {
        Some((t, DefaultAdmin::InForce)) => {
            assert_eq!(t.get_login("bob"), Some(plain("bob", false, "h1")));
            assert!(t.get_login("admin").is_none());
        }
        _ => panic!("records in force"),
    }
    assert!(Logins::load(Some(b"a,b,c\nbob,maybe,h\n")).is_none());
}
