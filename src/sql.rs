//! Rows of the database browser, and the rule for database names.
use vstd::prelude::*;
use vstd::string::StringSliceAdditionalSpecFns;

verus! {

/// A row of the users table.
pub struct User {
    pub id: u32,
    pub username: String,
    pub password: String,
    pub nickname: String,
}

impl User {
    pub fn new(id: u32, username: String, password: String, nickname: String) -> (r: User)
        ensures
            r.id == id,
            r.username@ == username@,
            r.password@ == password@,
            r.nickname@ == nickname@,
    {
        User { id, username, password, nickname }
    }
}

/// A one-column row holding a name (a database or a table).
pub struct StringDB {
    pub name: String,
}

impl StringDB {
    pub fn new(name: String) -> (r: StringDB)
        ensures
            r.name@ == name@,
    {
        StringDB { name }
    }
}

/// A column of a table: its name and its SQL type.
pub struct ColumnInfo {
    pub column_name: String,
    pub data_type: String,
}

impl ColumnInfo {
    pub fn new(column_name: String, data_type: String) -> (r: ColumnInfo)
        ensures
            r.column_name@ == column_name@,
            r.data_type@ == data_type@,
    {
        ColumnInfo { column_name, data_type }
    }
}

/// The longest database name accepted, in bytes.
pub const MAX_DBNAME_LEN: usize = 64;

/// A byte that may stand in a database name: an ASCII letter or digit, `_` or `-`.
pub open spec fn dbname_byte(c: u8) -> bool {
    (48 <= c <= 57) || (65 <= c <= 90) || (97 <= c <= 122) || c == 95 || c == 45
}

/// A database name is 1 to 64 bytes long, each an ASCII letter or digit, `_` or `-`.
pub open spec fn valid_dbname(b: Seq<u8>) -> bool {
    &&& 1 <= b.len() <= MAX_DBNAME_LEN
    &&& forall|i: int| 0 <= i < b.len() ==> dbname_byte(#[trigger] b[i])
}

/// Whether `dbname` may be used as the name of a database.
pub fn is_valid_dbname(dbname: &str) -> (r: bool)
    ensures
        r == valid_dbname(dbname.spec_bytes()),
{
    let b = dbname.as_bytes();
    if b.len() == 0 || b.len() > MAX_DBNAME_LEN {
        return false;
    }
    let mut i: usize = 0;
    while i < b.len()
        invariant
            i <= b@.len(),
            b@ == dbname.spec_bytes(),
            forall|j: int| 0 <= j < i ==> dbname_byte(#[trigger] b@[j]),
        decreases b@.len() - i,
    {
        let c = b[i];
        let ok = (48 <= c && c <= 57) || (65 <= c && c <= 90) || (97 <= c && c <= 122) || c == 95
            || c == 45;
        if !ok {
            assert(!dbname_byte(b@[i as int]));
            return false;
        }
        i = i + 1;
    }
    true
}

} // verus!
