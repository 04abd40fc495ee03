//! User logins: bcrypt-hashed passwords kept as an append-only table of
//! records, of which the latest record of each name is the one in force.

use vstd::prelude::*;

verus! {

// ---------------------------------------------------------------------------
// bcrypt
// ---------------------------------------------------------------------------

/// What `bcrypt::verify(password, hash)` answers: `Some(true)` when the
/// password matches the hash, `Some(false)` when it does not, and `None`
/// where `hash` cannot be read as a bcrypt hash.
pub uninterp spec fn bcrypt_verify_outcome(password: Seq<char>, hash: Seq<char>) -> Option<bool>;

/// Calls `bcrypt::verify`. The outcome depends on the two arguments alone:
/// the cost and salt are read out of `hash` and the password is hashed
/// again with them. An `Err` of the crate (a hash that does not parse, or a
/// cost outside the allowed range) comes back as `None`.
#[verifier::external_body]
fn bcrypt_verify(password: &str, hash: &str) -> (r: Option<bool>)
    ensures
        r == bcrypt_verify_outcome(password@, hash@),
{
    bcrypt::verify(password, hash).ok()
}

/// Calls `bcrypt::hash` with the crate's `DEFAULT_COST`; the salt is drawn
/// from the operating system's randomness. Claimed: a hash that comes back
/// is one that `bcrypt::verify` accepts for the same password (it re-derives
/// the hash from the cost and salt written into it). Not stated: which salt
/// is drawn, and when the call fails (no randomness available).
#[verifier::external_body]
fn bcrypt_hash(password: &str) -> (r: Option<String>)
    ensures
        r matches Some(h) ==> bcrypt_verify_outcome(password@, h@) == Some(true),
{
    bcrypt::hash(password, bcrypt::DEFAULT_COST).ok()
}

// ---------------------------------------------------------------------------
// CSV records
// ---------------------------------------------------------------------------

/// The rows that the `csv` crate's default reader decodes from `data` as
/// `(name, admin, hashword)` triples, or `None` where a row does not decode.
pub uninterp spec fn csv_login_rows(data: Seq<u8>) -> Option<Seq<(Seq<char>, bool, Seq<char>)>>;

/// The bytes that the `csv` crate's default writer produces for one
/// `(name, admin, hashword)` record, or `None` where encoding fails.
pub uninterp spec fn csv_login_record(name: Seq<char>, admin: bool, hashword: Seq<char>) -> Option<Seq<u8>>;

/// Decodes `data` with `csv::Reader::from_bytes(..).decode()` (default
/// settings, which take the first row as a header row). Claimed: the result
/// is the named decoding of `data`, row by row.
#[verifier::external_body]
fn decode_login_rows(data: &[u8]) -> (r: Option<Vec<(String, bool, String)>>)
    ensures
        r is None <==> csv_login_rows(data@) is None,
        r matches Some(rows) ==> csv_login_rows(data@) == Some(
            rows@.map_values(|t: (String, bool, String)| (t.0@, t.1, t.2@)),
        ),
{
    csv::Reader::from_bytes(data.to_vec()).decode().collect::<csv::Result<Vec<(String, bool, String)>>>().ok()
}

/// Encodes one record with `csv::Writer::encode` into memory (default
/// settings). Claimed: the bytes are the named encoding of the record.
#[verifier::external_body]
fn encode_login_record(name: &str, admin: bool, hashword: &str) -> (r: Option<Vec<u8>>)
    ensures
        r is None <==> csv_login_record(name@, admin, hashword@) is None,
        r matches Some(bytes) ==> csv_login_record(name@, admin, hashword@) == Some(bytes@),
{
    let mut writer = csv::Writer::from_memory();
    match writer.encode((name, admin, hashword)) {
        Ok(()) => Some(writer.into_bytes()),
        Err(_) => None,
    }
}

// ---------------------------------------------------------------------------
// Login
// ---------------------------------------------------------------------------

/// The mathematical value of a login.
pub struct LoginView {
    pub name: Seq<char>,
    pub admin: bool,
    pub hashword: Seq<char>,
}

/// One user: a name, whether the user administers the site, and the bcrypt
/// hash of the password.
#[derive(PartialEq, Eq, Clone, Debug)]
pub struct Login {
    pub name: String,
    pub admin: bool,
    pub hashword: String,
}

impl View for Login {
    type V = LoginView;

    open spec fn view(&self) -> LoginView {
        LoginView { name: self.name@, admin: self.admin, hashword: self.hashword@ }
    }
}

/// Whether `password` is the password of `login`.
pub open spec fn password_matches(login: LoginView, password: Seq<char>) -> bool {
    bcrypt_verify_outcome(password, login.hashword) == Some(true)
}

/// Whether the hash of `login` can be checked against `password` at all.
pub open spec fn hash_readable(login: LoginView, password: Seq<char>) -> bool {
    bcrypt_verify_outcome(password, login.hashword) is Some
}

/// The login made from the fields of a decoded CSV row.
pub open spec fn row_login(row: (Seq<char>, bool, Seq<char>)) -> LoginView {
    LoginView { name: row.0, admin: row.1, hashword: row.2 }
}

impl Login {
    /// A copy of this login, field by field.
    fn duplicate(&self) -> (r: Login)
        ensures
            r@ == self@,
    {
        Login { name: self.name.clone(), admin: self.admin, hashword: self.hashword.clone() }
    }

    /// Whether `pass` is this login's password. The hash must be readable
    /// by bcrypt for `pass` (see `try_verify` for the checked form).
    pub fn verify(&self, pass: &str) -> (r: bool)
        requires
            hash_readable(self@, pass@),
        ensures
            r == password_matches(self@, pass@),
    {
        match bcrypt_verify(pass, self.hashword.as_str()) {
            Some(b) => b,
            None => false,
        }
    }

    /// Checks `pass` against this login: `None` where the stored hash is not
    /// a bcrypt hash, else whether the password matches.
    pub fn try_verify(&self, pass: &str) -> (r: Option<bool>)
        ensures
            r is None <==> !hash_readable(self@, pass@),
            r matches Some(b) ==> b == password_matches(self@, pass@),
    {
        match bcrypt_verify(pass, self.hashword.as_str()) {
            Some(_) => Some(self.verify(pass)),
            None => None,
        }
    }

    /// A login with a fresh bcrypt hash of `password`. `None` when hashing
    /// failed; a login that comes back accepts `password`.
    pub fn new(name: &str, admin: bool, password: &str) -> (r: Option<Login>)
        ensures
            r matches Some(l) ==> {
                &&& l.name@ == name@
                &&& l.admin == admin
                &&& password_matches(l@, password@)
            },
    {
        let hashword = bcrypt_hash(password);
        Login::from_hash(name, admin, hashword)
    }

    /// The login made from a name, an administrator flag and the outcome of
    /// hashing its password: none where hashing failed.
    pub fn from_hash(name: &str, admin: bool, hashword: Option<String>) -> (r: Option<Login>)
        ensures
            hashword is None ==> r is None,
            hashword matches Some(h) ==> (r matches Some(l) && l@ == LoginView { name: name@, admin, hashword: h@ }),
    {
        match hashword {
            Some(h) => Some(Login { name: name.to_owned(), admin, hashword: h }),
            None => None,
        }
    }

    /// The CSV record under which this login is appended to the user file,
    /// or `None` where the record cannot be encoded.
    pub fn to_csv_record(&self) -> (r: Option<Vec<u8>>)
        ensures
            r is None <==> csv_login_record(self.name@, self.admin, self.hashword@) is None,
            r matches Some(bytes) ==> csv_login_record(self.name@, self.admin, self.hashword@)
                == Some(bytes@),
    {
        encode_login_record(self.name.as_str(), self.admin, self.hashword.as_str())
    }
}


// ---------------------------------------------------------------------------
// The login table
// ---------------------------------------------------------------------------

/// The latest record named `name` in `rows`: the one in force for that name.
pub open spec fn latest(rows: Seq<LoginView>, name: Seq<char>) -> Option<LoginView>
    decreases rows.len(),
{
    if rows.len() == 0 {
        None
    } else if rows.last().name == name {
        Some(rows.last())
    } else {
        latest(rows.drop_last(), name)
    }
}

/// Whether the latest record of `name` marks an administrator.
pub open spec fn is_admin_in(rows: Seq<LoginView>, name: Seq<char>) -> bool {
    latest(rows, name) matches Some(l) && l.admin
}

/// `logins` lists the logins in force for `rows`: every entry is the latest
/// record of its name, no name twice, and every name of `rows` present.
pub open spec fn lists_logins_in_force(rows: Seq<LoginView>, logins: Seq<LoginView>) -> bool {
    &&& forall|i: int| 0 <= i < logins.len() ==> latest(rows, #[trigger] logins[i].name) == Some(logins[i])
    &&& forall|i: int, j: int|
        0 <= i < j < logins.len() ==> #[trigger] logins[i].name != #[trigger] logins[j].name
    &&& forall|name: Seq<char>|
        #[trigger] latest(rows, name) is Some ==> exists|i: int| 0 <= i < logins.len() && #[trigger] logins[i].name == name
}

/// The record at `i` is the latest of its name when no later record has
/// that name.
pub proof fn lemma_latest_at(rows: Seq<LoginView>, i: int)
    requires
        0 <= i < rows.len(),
        forall|j: int| i < j < rows.len() ==> #[trigger] rows[j].name != rows[i].name,
    ensures
        latest(rows, rows[i].name) == Some(rows[i]),
    decreases rows.len(),
{
    if i < rows.len() - 1 {
        assert(rows.last() == rows[rows.len() - 1]);
        lemma_latest_at(rows.drop_last(), i);
    }
}

/// A name has no latest record exactly when no record has that name; a
/// latest record has that name.
pub proof fn lemma_latest_none(rows: Seq<LoginView>, name: Seq<char>)
    ensures
        latest(rows, name) is None <==> forall|j: int| 0 <= j < rows.len() ==> #[trigger] rows[j].name != name,
        latest(rows, name) matches Some(l) ==> l.name == name,
    decreases rows.len(),
{
    if rows.len() > 0 {
        lemma_latest_none(rows.drop_last(), name);
        if latest(rows, name) is None {
            assert forall|j: int| 0 <= j < rows.len() implies #[trigger] rows[j].name != name by {
                if j < rows.len() - 1 {
                    assert(rows.drop_last()[j] == rows[j]);
                }
            }
        } else {
            if rows.last().name != name {
                let j = choose|j: int| 0 <= j < rows.drop_last().len() && #[trigger] rows.drop_last()[j].name == name;
                assert(rows[j] == rows.drop_last()[j]);
            }
        }
    }
}

/// Reading after writing: once a login is set, the login read for its name
/// is that login, and every other name reads as before.
pub proof fn law_get_after_set(rows: Seq<LoginView>, row: LoginView, name: Seq<char>)
    ensures
        latest(rows.push(row), name) == if row.name == name { Some(row) } else { latest(rows, name) },
{
    assert(rows.push(row).drop_last() == rows);
}

/// A table of logins, in the order its records were written: the rows of
/// the user file. Setting a login appends a record; reading a name finds
/// its latest record.
pub struct Logins {
    records: Vec<Login>,
}

impl View for Logins {
    type V = Seq<LoginView>;

    closed spec fn view(&self) -> Seq<LoginView> {
        self.records@.map_values(|l: Login| l@)
    }
}

/// The records that a user file holds: none where there is no file, else
/// its decoded CSV rows.
pub open spec fn rows_read(contents: Option<&[u8]>) -> Seq<LoginView> {
    match contents {
        None => Seq::empty(),
        Some(d) => csv_login_rows(d@)->0.map_values(|row: (Seq<char>, bool, Seq<char>)| row_login(row)),
    }
}

/// What a start-up check of the table did about the default administrator.
pub enum DefaultAdmin {
    /// The table already holds logins; nothing was added.
    InForce,
    /// The table was empty; this administrator login was added.
    Created(Login),
    /// The table was empty and hashing the default password failed.
    HashFailed,
}

/// A login that was just set as an administrator makes its name an
/// administrator.
pub proof fn law_set_admin_is_admin(rows: Seq<LoginView>, login: LoginView)
    requires
        login.admin,
    ensures
        is_admin_in(rows.push(login), login.name),
{
    law_get_after_set(rows, login, login.name);
}

/// Whether two names are the same text.
fn same_name(a: &String, b: &String) -> (r: bool)
    ensures
        r == (a@ == b@),
{
    a.eq(b)
}

/// Whether some login of `list` has the name `name`.
fn contains_name(list: &Vec<Login>, name: &String) -> (r: bool)
    ensures
        r == exists|k: int| 0 <= k < list@.len() && #[trigger] list@[k].name@ == name@,
{
    let n = list.len();
    for k in 0..n
        invariant
            n == list@.len(),
            forall|m: int| 0 <= m < k ==> #[trigger] list@[m].name@ != name@,
    {
        if same_name(&list[k].name, name) {
            return true;
        }
    }
    false
}

impl Logins {
    /// An empty table: the user file is absent.
    pub fn new() -> (r: Logins)
        ensures
            r@ == Seq::<LoginView>::empty(),
    {
        let r = Logins { records: Vec::new() };
        assert(r@ =~= Seq::<LoginView>::empty());
        r
    }

    /// A table holding `records`, in order.
    pub fn from_records(records: Vec<Login>) -> (r: Logins)
        ensures
            r@ == records@.map_values(|l: Login| l@),
    {
        Logins { records }
    }

    /// The table held in the contents of a user file, decoded as CSV rows of
    /// `(name, admin, hashword)`. Every row must decode (see `try_from_csv`
    /// for the checked form).
    pub fn from_csv(data: &[u8]) -> (r: Logins)
        requires
            csv_login_rows(data@) is Some,
        ensures
            r@ == csv_login_rows(data@)->0.map_values(|row: (Seq<char>, bool, Seq<char>)| row_login(row)),
    {
        match decode_login_rows(data) {
            None => Logins::new(),
            Some(rows) => {
                let mut records: Vec<Login> = Vec::new();
                let n = rows.len();
                for i in 0..n
                    invariant
                        n == rows@.len(),
                        records@.len() == i,
                        forall|k: int| 0 <= k < i ==> #[trigger] records@[k]@ == row_login(
                            (rows@[k].0@, rows@[k].1, rows@[k].2@),
                        ),
                {
                    let row = &rows[i];
                    records.push(Login { name: row.0.clone(), admin: row.1, hashword: row.2.clone() });
                }
                let t = Logins { records };
                proof {
                    let decoded = rows@.map_values(|t: (String, bool, String)| (t.0@, t.1, t.2@));
                    assert(t@ =~= decoded.map_values(|row: (Seq<char>, bool, Seq<char>)| row_login(row)));
                }
                t
            },
        }
    }

    /// The table held in the contents of a user file: `None` exactly when a
    /// row does not decode, else the decoded table (as `from_csv`).
    pub fn try_from_csv(data: &[u8]) -> (r: Option<Logins>)
        ensures
            r is None <==> csv_login_rows(data@) is None,
            r matches Some(t) ==> t@ == csv_login_rows(data@)->0.map_values(
                |row: (Seq<char>, bool, Seq<char>)| row_login(row),
            ),
    {
        match decode_login_rows(data) {
            None => None,
            Some(_) => Some(Logins::from_csv(data)),
        }
    }

    /// The login in force for `name`: its latest record.
    pub fn get_login(&self, name: &str) -> (r: Option<Login>)
        ensures
            r matches Some(l) ==> latest(self@, name@) == Some(l@),
            r is None ==> latest(self@, name@) is None,
    {
        let target = name.to_owned();
        let mut i = self.records.len();
        while i > 0
            invariant
                i <= self.records@.len(),
                target@ == name@,
                forall|j: int| i <= j < self.records@.len() ==> #[trigger] self@[j].name != name@,
            decreases i,
        {
            i = i - 1;
            if same_name(&self.records[i].name, &target) {
                proof {
                    lemma_latest_at(self@, i as int);
                }
                return Some(self.records[i].duplicate());
            }
        }
        proof {
            lemma_latest_none(self@, name@);
        }
        None
    }

    /// The logins in force: the latest record of each name, one entry per
    /// name.
    pub fn login_map(&self) -> (r: Vec<Login>)
        ensures
            lists_logins_in_force(self@, r@.map_values(|l: Login| l@)),
    {
        let mut result: Vec<Login> = Vec::new();
        let mut i = self.records.len();
        while i > 0
            invariant
                i <= self.records@.len(),
                forall|k: int| 0 <= k < result@.len() ==> latest(self@, #[trigger] result@[k].name@) == Some(result@[k]@),
                forall|k: int, m: int|
                    0 <= k < m < result@.len() ==> #[trigger] result@[k].name@ != #[trigger] result@[m].name@,
                forall|j: int|
                    i <= j < self.records@.len() ==> exists|k: int|
                        0 <= k < result@.len() && #[trigger] result@[k].name@ == #[trigger] self@[j].name,
            decreases i,
        {
            i = i - 1;
            if !contains_name(&result, &self.records[i].name) {
                proof {
                    assert forall|j: int| i < j < self@.len() implies #[trigger] self@[j].name != self@[i as int].name by {
                        let k = choose|k: int| 0 <= k < result@.len() && #[trigger] result@[k].name@ == self@[j].name;
                    }
                    lemma_latest_at(self@, i as int);
                }
                let ghost before = result@;
                result.push(self.records[i].duplicate());
                proof {
                    assert forall|j: int| i <= j < self.records@.len() implies exists|k: int|
                        0 <= k < result@.len() && #[trigger] result@[k].name@ == #[trigger] self@[j].name by {
                        if j == i {
                            assert(result@[before.len() as int].name@ == self@[j].name);
                        } else {
                            let k = choose|k: int| 0 <= k < before.len() && #[trigger] before[k].name@ == self@[j].name;
                            assert(result@[k] == before[k]);
                        }
                    }
                }
            } else {
                proof {
                    assert forall|j: int| i <= j < self.records@.len() implies exists|k: int|
                        0 <= k < result@.len() && #[trigger] result@[k].name@ == #[trigger] self@[j].name by {
                        if j > i {
                        } else {
                            let k = choose|k: int| 0 <= k < result@.len() && #[trigger] result@[k].name@ == self.records@[i as int].name@;
                            assert(result@[k].name@ == self@[j].name);
                        }
                    }
                }
            }
        }
        proof {
            let ls = result@.map_values(|l: Login| l@);
            assert forall|name: Seq<char>| #[trigger] latest(self@, name) is Some implies exists|k: int|
                0 <= k < ls.len() && #[trigger] ls[k].name == name by {
                lemma_latest_none(self@, name);
                let j = choose|j: int| 0 <= j < self@.len() && #[trigger] self@[j].name == name;
                let k = choose|k: int| 0 <= k < result@.len() && #[trigger] result@[k].name@ == self@[j].name;
                assert(ls[k].name == name);
            }
            assert forall|k: int| 0 <= k < ls.len() implies latest(self@, #[trigger] ls[k].name) == Some(ls[k]) by {
                assert(result@[k].name@ == ls[k].name);
            }
            assert forall|k: int, m: int| 0 <= k < m < ls.len() implies #[trigger] ls[k].name != #[trigger] ls[m].name by {
                assert(result@[k].name@ == ls[k].name);
                assert(result@[m].name@ == ls[m].name);
            }
        }
        result
    }

    /// The logins in force, one per name (see `login_map`).
    pub fn get_logins(&self) -> (r: Vec<Login>)
        ensures
            lists_logins_in_force(self@, r@.map_values(|l: Login| l@)),
    {
        self.login_map()
    }

    /// Whether `name` is an administrator: its login in force says so. A
    /// name without a login is no administrator.
    pub fn is_admin(&self, name: &str) -> (r: bool)
        ensures
            r == is_admin_in(self@, name@),
    {
        match self.get_login(name) {
            Some(l) => l.admin,
            None => false,
        }
    }

    /// Whether the user of a session is an administrator; no user is none.
    pub fn user_is_admin(&self, user: Option<&str>) -> (r: bool)
        ensures
            r == (user matches Some(name) && is_admin_in(self@, name@)),
    {
        match user {
            Some(name) => self.is_admin(name),
            None => false,
        }
    }

    /// The login table of a user file: `contents` is what the file holds, or
    /// `None` where there is no file. The rows are read as CSV, and a table
    /// without logins gets the default administrator. `None` exactly when a
    /// row does not decode. The table that comes back is empty only where
    /// hashing the default password failed.
    pub fn load(contents: Option<&[u8]>) -> (r: Option<(Logins, DefaultAdmin)>)
        ensures
            r is None <==> (contents matches Some(d) && csv_login_rows(d@) is None),
            r matches Some((t, made)) ==> {
                &&& rows_read(contents).len() > 0 ==> (made is InForce && t@ == rows_read(contents))
                &&& rows_read(contents).len() == 0 ==> match made {
                    DefaultAdmin::InForce => false,
                    DefaultAdmin::HashFailed => t@ == rows_read(contents),
                    DefaultAdmin::Created(a) => {
                        &&& a.name@ == "admin"@
                        &&& a.admin
                        &&& password_matches(a@, "password"@)
                        &&& t@ == rows_read(contents).push(a@)
                    },
                }
                &&& t@.len() == 0 <==> made is HashFailed
            },
    {
        let mut table = match contents {
            None => Logins::new(),
            Some(data) => match Logins::try_from_csv(data) {
                Some(t) => t,
                None => return None,
            },
        };
        let made = table.ensure_default_admin();
        Some((table, made))
    }

    /// The first start of the server: a table without logins gets the
    /// default administrator `admin` with the password `password`. The
    /// created login is handed back to be appended to the user file.
    pub fn ensure_default_admin(&mut self) -> (r: DefaultAdmin)
        ensures
            old(self)@.len() > 0 ==> (r is InForce && final(self)@ == old(self)@),
            old(self)@.len() == 0 ==> match r {
                DefaultAdmin::InForce => false,
                DefaultAdmin::HashFailed => final(self)@ == old(self)@,
                DefaultAdmin::Created(a) => {
                    &&& a.name@ == "admin"@
                    &&& a.admin
                    &&& password_matches(a@, "password"@)
                    &&& final(self)@ == old(self)@.push(a@)
                },
            },
    {
        if self.records.len() > 0 {
            return DefaultAdmin::InForce;
        }
        match Login::new("admin", true, "password") {
            Some(admin) => {
                self.set_login(&admin);
                DefaultAdmin::Created(admin)
            },
            None => DefaultAdmin::HashFailed,
        }
    }

    /// Records `login` as the latest record of its name.
    pub fn set_login(&mut self, login: &Login)
        ensures
            final(self)@ == old(self)@.push(login@),
    {
        self.records.push(login.duplicate());
        proof {
            assert(final(self)@ =~= old(self)@.push(login@));
        }
    }
}

} // verus!
