//! The user directory: the system accounts split into "known" (regular,
//! login-capable accounts inside the configured UID range) and "blocked"
//! (everything else), and the reading of that UID range.
use vstd::prelude::*;
use vstd::string::*;
use crate::decimal::{parse_u32, u32_of};

verus! {

/// One account as the operating system lists it.
pub struct Account {
    pub uid: u32,
    pub name: String,
    pub shell: String,
}

/// A resolved user: its uid and the name shown for it.
pub struct UserIdentity {
    pub uid: u32,
    pub name: String,
}

/// The half-open UID range `[uid_min, uid_max)` of regular accounts.
#[derive(Clone, Copy, Debug, PartialEq, Eq)]
pub struct UidRange {
    pub uid_min: u32,
    pub uid_max: u32,
}

/// Why the UID range could not be read.
#[derive(Clone, Copy, Debug, PartialEq, Eq)]
pub enum DirectoryError {
    MissingUidMin,
    MissingUidMax,
    MalformedUidMin,
    MalformedUidMax,
    /// The text holds a whitespace character of more than one byte, which
    /// the definitions reader cannot split on.
    WideWhitespace,
}

/// The directory: both partitions. Where a uid occurs more than once in a
/// partition, its first entry counts.
pub struct UserDirectory {
    pub known: Vec<UserIdentity>,
    pub blocked: Vec<UserIdentity>,
}

/// The value that `whitespace_conf::parse` gives to `key` in `text`, if any.
pub uninterp spec fn defs_entry(text: Seq<char>, key: Seq<char>) -> Option<Seq<char>>;

/// A character that `char::is_whitespace` accepts and that takes more than
/// one byte in UTF-8: the Unicode `White_Space` characters above U+007F.
pub open spec fn is_wide_space(c: char) -> bool {
    ||| c == '\u{85}'
    ||| c == '\u{a0}'
    ||| c == '\u{1680}'
    ||| ('\u{2000}' <= c && c <= '\u{200a}')
    ||| c == '\u{2028}'
    ||| c == '\u{2029}'
    ||| c == '\u{202f}'
    ||| c == '\u{205f}'
    ||| c == '\u{3000}'
}

/// Whether `text` holds no wide whitespace character.
pub open spec fn no_wide_space(text: Seq<char>) -> bool {
    forall|i: int| 0 <= i < text.len() ==> !is_wide_space(#[trigger] text[i])
}

fn wide_space(c: char) -> (r: bool)
    ensures
        r == is_wide_space(c),
{
    c == '\u{85}' || c == '\u{a0}' || c == '\u{1680}' || ('\u{2000}' <= c && c <= '\u{200a}') || c == '\u{2028}'
        || c == '\u{2029}' || c == '\u{202f}' || c == '\u{205f}' || c == '\u{3000}'
}

fn has_no_wide_space(text: &str) -> (r: bool)
    ensures
        r == no_wide_space(text@),
{
    let n = text.unicode_len();
    let mut i: usize = 0;
    while i < n
        invariant
            i <= n,
            n == text@.len(),
            forall|k: int| 0 <= k < i ==> !is_wide_space(#[trigger] text@[k]),
        decreases n - i,
    {
        if wide_space(text.get_char(i)) {
            return false;
        }
        i = i + 1;
    }
    true
}

/// Relies on `whitespace_conf::parse`, a function of its input alone, and on
/// a lookup of one key in the map it returns. `parse` splits each line one
/// byte after its first whitespace character, so a wide whitespace
/// character there would cut a character in two and panic: such text is
/// left out.
#[verifier::external_body]
fn login_defs_value(text: &str, key: &str) -> (r: Option<String>)
    requires
        no_wide_space(text@),
    ensures
        r matches Some(v) ==> defs_entry(text@, key@) == Some(v@),
        r is None ==> defs_entry(text@, key@) is None,
{
    whitespace_conf::parse(text).get(key).map(|v| v.to_string())
}

pub open spec fn uid_min_key() -> Seq<char> {
    seq!['U', 'I', 'D', '_', 'M', 'I', 'N']
}

pub open spec fn uid_max_key() -> Seq<char> {
    seq!['U', 'I', 'D', '_', 'M', 'A', 'X']
}

/// The login shell of accounts that cannot log in.
pub open spec fn nologin_shell() -> Seq<char> {
    seq!['/', 's', 'b', 'i', 'n', '/', 'n', 'o', 'l', 'o', 'g', 'i', 'n']
}

/// The UID range that the login definitions `text` give.
pub open spec fn uid_range_of(text: Seq<char>) -> Result<UidRange, DirectoryError> {
    if !no_wide_space(text) {
        Err(DirectoryError::WideWhitespace)
    } else {
        uid_range_in(text)
    }
}

/// The UID range of text without wide whitespace.
pub open spec fn uid_range_in(text: Seq<char>) -> Result<UidRange, DirectoryError> {
    match defs_entry(text, uid_min_key()) {
        None => Err(DirectoryError::MissingUidMin),
        Some(lo) => match u32_of(lo) {
            None => Err(DirectoryError::MalformedUidMin),
            Some(uid_min) => match defs_entry(text, uid_max_key()) {
                None => Err(DirectoryError::MissingUidMax),
                Some(hi) => match u32_of(hi) {
                    None => Err(DirectoryError::MalformedUidMax),
                    Some(uid_max) => Ok(UidRange { uid_min, uid_max }),
                },
            },
        },
    }
}

/// Reads `UID_MIN` and `UID_MAX` from the text of the login definitions;
/// text holding a wide whitespace character is refused.
pub fn uid_range(login_defs: &str) -> (r: Result<UidRange, DirectoryError>)
    ensures
        r == uid_range_of(login_defs@),
{
    proof {
        reveal_strlit("UID_MIN");
        reveal_strlit("UID_MAX");
        assert("UID_MIN"@ =~= uid_min_key());
        assert("UID_MAX"@ =~= uid_max_key());
    }
    if !has_no_wide_space(login_defs) {
        return Err(DirectoryError::WideWhitespace);
    }
    let lo = match login_defs_value(login_defs, "UID_MIN") {
        None => return Err(DirectoryError::MissingUidMin),
        Some(v) => v,
    };
    let uid_min = match parse_u32(lo.as_str()) {
        None => return Err(DirectoryError::MalformedUidMin),
        Some(v) => v,
    };
    let hi = match login_defs_value(login_defs, "UID_MAX") {
        None => return Err(DirectoryError::MissingUidMax),
        Some(v) => v,
    };
    let uid_max = match parse_u32(hi.as_str()) {
        None => return Err(DirectoryError::MalformedUidMax),
        Some(v) => v,
    };
    Ok(UidRange { uid_min, uid_max })
}

/// An account is known iff its uid lies in the range and its shell is not
/// the no-login shell.
pub open spec fn is_known(a: Account, range: UidRange) -> bool {
    range.uid_min <= a.uid < range.uid_max && a.shell@ != nologin_shell()
}

pub open spec fn identity_of(a: Account) -> (u32, Seq<char>) {
    (a.uid, a.name@)
}

pub open spec fn identity_view(u: UserIdentity) -> (u32, Seq<char>) {
    (u.uid, u.name@)
}

/// The identities of the accounts of `s` for which `known` is `want`, in order.
pub open spec fn partition_of(s: Seq<Account>, range: UidRange, want: bool) -> Seq<(u32, Seq<char>)>
    decreases s.len(),
{
    if s.len() == 0 {
        Seq::empty()
    } else {
        let rest = partition_of(s.drop_last(), range, want);
        if is_known(s.last(), range) == want {
            rest.push(identity_of(s.last()))
        } else {
            rest
        }
    }
}

/// The name under `uid` in a partition: that of its first entry.
pub open spec fn lookup(s: Seq<(u32, Seq<char>)>, uid: u32) -> Option<Seq<char>>
    decreases s.len(),
{
    if s.len() == 0 {
        None
    } else if s[0].0 == uid {
        Some(s[0].1)
    } else {
        lookup(s.drop_first(), uid)
    }
}

impl UserDirectory {
    pub open spec fn known_view(&self) -> Seq<(u32, Seq<char>)> {
        self.known@.map_values(|u: UserIdentity| identity_view(u))
    }

    pub open spec fn blocked_view(&self) -> Seq<(u32, Seq<char>)> {
        self.blocked@.map_values(|u: UserIdentity| identity_view(u))
    }

    /// A directory with both partitions empty.
    pub fn empty() -> (r: UserDirectory)
        ensures
            r.known_view() == Seq::<(u32, Seq<char>)>::empty(),
            r.blocked_view() == Seq::<(u32, Seq<char>)>::empty(),
    {
        let r = UserDirectory { known: Vec::new(), blocked: Vec::new() };
        assert(r.known_view() =~= Seq::<(u32, Seq<char>)>::empty());
        assert(r.blocked_view() =~= Seq::<(u32, Seq<char>)>::empty());
        r
    }

    /// The name of a known user.
    pub fn known_name(&self, uid: u32) -> (r: Option<String>)
        ensures
            r matches Some(v) ==> lookup(self.known_view(), uid) == Some(v@),
            r is None ==> lookup(self.known_view(), uid) is None,
    {
        find_name(&self.known, uid)
    }

    /// The name of a blocked user.
    pub fn blocked_name(&self, uid: u32) -> (r: Option<String>)
        ensures
            r matches Some(v) ==> lookup(self.blocked_view(), uid) == Some(v@),
            r is None ==> lookup(self.blocked_view(), uid) is None,
    {
        find_name(&self.blocked, uid)
    }
}

fn find_name(v: &Vec<UserIdentity>, uid: u32) -> (r: Option<String>)
    ensures
        r matches Some(n) ==> lookup(v@.map_values(|u: UserIdentity| identity_view(u)), uid) == Some(n@),
        r is None ==> lookup(v@.map_values(|u: UserIdentity| identity_view(u)), uid) is None,
{
    let ghost s = v@.map_values(|u: UserIdentity| identity_view(u));
    let mut i: usize = 0;
    assert(s.subrange(0, s.len() as int) =~= s);
    while i < v.len()
        invariant
            i <= v.len(),
            s == v@.map_values(|u: UserIdentity| identity_view(u)),
            lookup(s, uid) == lookup(s.subrange(i as int, s.len() as int), uid),
        decreases v.len() - i,
    {
        let ghost t = s.subrange(i as int, s.len() as int);
        assert(t.drop_first() =~= s.subrange(i + 1, s.len() as int));
        if v[i].uid == uid {
            assert(t[0] == identity_view(v@[i as int]));
            return Some(v[i].name.clone());
        }
        i = i + 1;
    }
    None
}

fn is_nologin(shell: &String) -> (r: bool)
    ensures
        r == (shell@ == nologin_shell()),
{
    let nologin = String::from_str("/sbin/nologin");
    proof {
        reveal_strlit("/sbin/nologin");
    }
    assert(nologin@ =~= nologin_shell());
    *shell == nologin
}

/// Splits the accounts into known and blocked identities, in order.
pub fn get_users(accounts: &Vec<Account>, range: UidRange) -> (r: (Vec<UserIdentity>, Vec<UserIdentity>))
    ensures
        r.0@.map_values(|u: UserIdentity| identity_view(u)) == partition_of(accounts@, range, true),
        r.1@.map_values(|u: UserIdentity| identity_view(u)) == partition_of(accounts@, range, false),
{
    let mut known: Vec<UserIdentity> = Vec::new();
    let mut blocked: Vec<UserIdentity> = Vec::new();
    let mut i: usize = 0;
    while i < accounts.len()
        invariant
            i <= accounts.len(),
            known@.map_values(|u: UserIdentity| identity_view(u)) == partition_of(accounts@.take(i as int), range, true),
            blocked@.map_values(|u: UserIdentity| identity_view(u)) == partition_of(accounts@.take(i as int), range, false),
        decreases accounts.len() - i,
    {
        let a = &accounts[i];
        let ghost prefix = accounts@.take(i + 1);
        assert(prefix.drop_last() =~= accounts@.take(i as int));
        assert(prefix.last() == *a);
        let id = UserIdentity { uid: a.uid, name: a.name.clone() };
        if a.uid >= range.uid_min && a.uid < range.uid_max && !is_nologin(&a.shell) {
            known.push(id);
        } else {
            blocked.push(id);
        }
        assert(known@.map_values(|u: UserIdentity| identity_view(u)) =~= partition_of(prefix, range, true));
        assert(blocked@.map_values(|u: UserIdentity| identity_view(u)) =~= partition_of(prefix, range, false));
        i = i + 1;
    }
    assert(accounts@.take(accounts.len() as int) =~= accounts@);
    (known, blocked)
}

/// Builds the directory from the accounts and the UID range.
pub fn get_users_map(accounts: &Vec<Account>, range: UidRange) -> (r: UserDirectory)
    ensures
        r.known_view() == partition_of(accounts@, range, true),
        r.blocked_view() == partition_of(accounts@, range, false),
{
    let (known, blocked) = get_users(accounts, range);
    UserDirectory { known, blocked }
}

} // verus!
