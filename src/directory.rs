//! Directory principals: their types, fields and updates.
use vstd::prelude::*;
use vstd::string::StringExecFns;

use crate::codec::{
    leb128_at, leb_encode, lemma_encode_shape, lemma_read_encoded, pow128, read_leb128,
    write_leb128,
};

verus! {

/// Relies on `str`'s `==`: true exactly when the two strings hold the same
/// characters.
#[verifier::external_body]
fn same_str(a: &str, b: &str) -> (r: bool)
    ensures
        r == (a@ == b@),
{
    a == b
}

/// Relies on `str::starts_with`: true exactly when `prefix` is a prefix of `s`.
#[verifier::external_body]
fn has_prefix(s: &str, prefix: &str) -> (r: bool)
    ensures
        r == (prefix@.len() <= s@.len() && s@.subrange(0, prefix@.len() as int) == prefix@),
{
    s.starts_with(prefix)
}

/// The kind of a principal.
#[derive(Clone, Copy, Debug, PartialEq, Eq, Structural)]
pub enum Type {
    Individual,
    Group,
    Resource,
    Location,
    Superuser,
    List,
    Other,
    Domain,
    Tenant,
}

impl Default for Type {
    fn default() -> (r: Type)
        ensures
            r == Type::Other,
    {
        Type::Other
    }
}

pub open spec fn jmap_name(t: Type) -> Seq<char> {
    match t {
        Type::Individual => "individual"@,
        Type::Superuser => "individual"@,
        Type::Group => "group"@,
        Type::Resource => "resource"@,
        Type::Location => "location"@,
        Type::Other => "other"@,
        Type::List => "list"@,
        Type::Domain => "domain"@,
        Type::Tenant => "tenant"@,
    }
}

impl Type {
    /// The name of the type in JMAP; a superuser is an individual.
    pub fn to_jmap(&self) -> (r: &'static str)
        ensures
            r@ == jmap_name(*self),
    {
        match self {
            Type::Individual | Type::Superuser => "individual",
            Type::Group => "group",
            Type::Resource => "resource",
            Type::Location => "location",
            Type::Other => "other",
            Type::List => "list",
            Type::Domain => "domain",
            Type::Tenant => "tenant",
        }
    }

    /// The stored code of the type.
    pub fn as_u8(&self) -> (r: u8)
        ensures
            r == type_code(*self),
    {
        match self {
            Type::Individual => 0,
            Type::Group => 1,
            Type::Resource => 2,
            Type::Location => 3,
            Type::Superuser => 4,
            Type::List => 5,
            Type::Other => 6,
            Type::Domain => 7,
            Type::Tenant => 8,
        }
    }

    /// The type of a stored code; unknown codes read as `Other`.
    pub fn from_u8(v: u8) -> (r: Type)
        ensures
            r == type_of_code(v),
            v <= 8 ==> type_code(r) == v,
            v > 8 ==> r == Type::Other,
    {
        match v {
            0 => Type::Individual,
            1 => Type::Group,
            2 => Type::Resource,
            3 => Type::Location,
            4 => Type::Superuser,
            5 => Type::List,
            7 => Type::Domain,
            8 => Type::Tenant,
            _ => Type::Other,
        }
    }
}

/// The type that a stored code stands for.
pub open spec fn type_of_code(v: u8) -> Type {
    if v == 0 {
        Type::Individual
    } else if v == 1 {
        Type::Group
    } else if v == 2 {
        Type::Resource
    } else if v == 3 {
        Type::Location
    } else if v == 4 {
        Type::Superuser
    } else if v == 5 {
        Type::List
    } else if v == 7 {
        Type::Domain
    } else if v == 8 {
        Type::Tenant
    } else {
        Type::Other
    }
}

pub open spec fn type_code(t: Type) -> u8 {
    match t {
        Type::Individual => 0,
        Type::Group => 1,
        Type::Resource => 2,
        Type::Location => 3,
        Type::Superuser => 4,
        Type::List => 5,
        Type::Other => 6,
        Type::Domain => 7,
        Type::Tenant => 8,
    }
}

/// A principal of the directory.
pub struct Principal {
    pub id: u32,
    pub typ: Type,
    pub quota: u32,
    pub name: String,
    pub secrets: Vec<String>,
    pub emails: Vec<String>,
    pub member_of: Vec<u32>,
    pub description: Option<String>,
}

impl Principal {
    pub fn name(&self) -> (r: &str)
        ensures
            r@ == self.name@,
    {
        self.name.as_str()
    }

    pub fn has_name(&self) -> (r: bool)
        ensures
            r == (self.name@.len() > 0),
    {
        !self.name.as_str().is_empty()
    }

    pub fn description(&self) -> (r: Option<&str>)
        ensures
            match r {
                Some(d) => self.description matches Some(s) && d@ == s@,
                None => self.description is None,
            },
    {
        match &self.description {
            Some(s) => Some(s.as_str()),
            None => None,
        }
    }
}

/// The identity, type and tenant of a principal.
#[derive(Clone, Copy, Debug, PartialEq, Eq, Structural)]
pub struct PrincipalInfo {
    pub id: u32,
    pub typ: Type,
    pub tenant: Option<u32>,
}

impl PrincipalInfo {
    pub fn new(principal_id: u32, typ: Type, tenant: Option<u32>) -> (r: PrincipalInfo)
        ensures
            r == (PrincipalInfo { id: principal_id, typ, tenant }),
    {
        PrincipalInfo { id: principal_id, typ, tenant }
    }

    /// Whether the principal may act within tenant `tenant_id`: always when no
    /// tenant is given; otherwise when it belongs to that tenant or is that tenant.
    pub fn has_tenant_access(&self, tenant_id: Option<u32>) -> (r: bool)
        ensures
            r == match tenant_id {
                None => true,
                Some(t) => self.tenant == Some(t) || (self.typ == Type::Tenant && self.id == t),
            },
    {
        match tenant_id {
            None => true,
            Some(t) => {
                let member = match self.tenant {
                    Some(own) => own == t,
                    None => false,
                };
                member || (self.typ == Type::Tenant && self.id == t)
            },
        }
    }
}

/// The stored form of a principal's identity: its identifier, its type code and,
/// for a principal of a tenant, the tenant's identifier.
pub open spec fn info_bytes(p: PrincipalInfo) -> Seq<u8> {
    leb_encode(p.id as nat) + seq![type_code(p.typ)] + match p.tenant {
        Some(t) => leb_encode(t as nat),
        None => Seq::empty(),
    }
}

/// What a stored identity reads as; a missing or unreadable tenant reads as none.
pub open spec fn info_of(b: Seq<u8>) -> Option<PrincipalInfo> {
    match leb128_at(b, 0, 5, u32::MAX as u64) {
        None => None,
        Some((id, p)) => if p >= b.len() {
            None
        } else {
            Some(
                PrincipalInfo {
                    id: id as u32,
                    typ: type_of_code(b[p]),
                    tenant: match leb128_at(b, p + 1, 5, u32::MAX as u64) {
                        Some((t, _)) => Some(t as u32),
                        None => None,
                    },
                },
            )
        },
    }
}

impl PrincipalInfo {
    /// The stored form of the identity.
    pub fn serialize(&self) -> (r: Vec<u8>)
        ensures
            r@ == info_bytes(*self),
    {
        let mut out: Vec<u8> = Vec::new();
        write_leb128(&mut out, self.id as u64);
        out.push(self.typ.as_u8());
        match self.tenant {
            Some(t) => write_leb128(&mut out, t as u64),
            None => {},
        }
        assert(out@ =~= info_bytes(*self));
        out
    }

    /// Reads a stored identity.
    pub fn deserialize(bytes: &[u8]) -> (r: Option<PrincipalInfo>)
        ensures
            r == info_of(bytes@),
    {
        let (id, p) = match read_leb128(bytes, 0, 5, 4294967295) {
            Some(x) => x,
            None => return None,
        };
        if p >= bytes.len() {
            return None;
        }
        let typ = Type::from_u8(bytes[p]);
        let tenant = match read_leb128(bytes, p + 1, 5, 4294967295) {
            Some((t, _)) => Some(t as u32),
            None => None,
        };
        Some(PrincipalInfo { id: id as u32, typ, tenant })
    }
}

proof fn lemma_type_code(t: Type)
    ensures
        type_of_code(type_code(t)) == t,
{
}

/// Storing a principal's identity and reading it back gives the same identity.
pub proof fn lemma_info_round_trip(p: PrincipalInfo)
    ensures
        info_of(info_bytes(p)) == Some(p),
{
    reveal_with_fuel(pow128, 6);
    assert(pow128(5) == 34359738368);
    let b = info_bytes(p);
    let e1 = leb_encode(p.id as nat);
    let tail = match p.tenant {
        Some(t) => leb_encode(t as nat),
        None => Seq::empty(),
    };
    lemma_encode_shape(p.id as nat, 5);
    assert(b == e1 + seq![type_code(p.typ)] + tail);
    assert(b.subrange(0, e1.len() as int) =~= e1);
    lemma_read_encoded(b, 0, p.id as nat, 5, u32::MAX as u64);
    assert(b[e1.len() as int] == type_code(p.typ));
    lemma_type_code(p.typ);
    let q: int = e1.len() as int + 1;
    match p.tenant {
        Some(t) => {
            lemma_encode_shape(t as nat, 5);
            assert(b.subrange(q, q + tail.len()) =~= tail);
            lemma_read_encoded(b, q, t as nat, 5, u32::MAX as u64);
        },
        None => {
            assert(b.len() == q);
        },
    }
}

/// The index of the last `c` in `s`, or -1.
pub open spec fn last_index(s: Seq<char>, c: char) -> int
    decreases s.len(),
{
    if s.len() == 0 {
        -1
    } else if s.last() == c {
        s.len() - 1
    } else {
        last_index(s.drop_last(), c)
    }
}

/// The index of the first `c` in `s`, or -1.
pub open spec fn first_index(s: Seq<char>, c: char) -> int
    decreases s.len(),
{
    if s.len() == 0 {
        -1
    } else if first_index(s.drop_last(), c) >= 0 {
        first_index(s.drop_last(), c)
    } else if s.last() == c {
        s.len() - 1
    } else {
        -1
    }
}

/// `s` cut around the character at `i`.
pub open spec fn cut_at(s: Seq<char>, i: int) -> (Seq<char>, Seq<char>) {
    (s.subrange(0, i), s.subrange(i + 1, s.len() as int))
}

/// Relies on `str::rsplit_once` with a `char` pattern: the text before and after
/// the last occurrence of `c`, if any.
#[verifier::external_body]
fn rsplit_once_char(s: &str, c: char) -> (r: Option<(String, String)>)
    ensures
        match r {
            Some((a, b)) => last_index(s@, c) >= 0 && (a@, b@) == cut_at(s@, last_index(s@, c)),
            None => last_index(s@, c) < 0,
        },
{
    s.rsplit_once(c).map(|(a, b)| (a.to_string(), b.to_string()))
}

/// Relies on `str::split_once` with a `char` pattern: the text before and after
/// the first occurrence of `c`, if any.
#[verifier::external_body]
fn split_once_char(s: &str, c: char) -> (r: Option<(String, String)>)
    ensures
        match r {
            Some((a, b)) => first_index(s@, c) >= 0 && (a@, b@) == cut_at(s@, first_index(s@, c)),
            None => first_index(s@, c) < 0,
        },
{
    s.split_once(c).map(|(a, b)| (a.to_string(), b.to_string()))
}

/// How addresses map to a sub-address or to a catch-all.
#[derive(Clone, Copy, Debug, PartialEq, Eq, Structural)]
pub enum AddressMapping {
    Enable,
    Disable,
}

/// `local+tag@domain` without its tag; any other address as it is.
pub open spec fn subaddress_spec(s: Seq<char>) -> Seq<char> {
    let at = last_index(s, '@');
    if at < 0 {
        s
    } else {
        let (local, domain) = cut_at(s, at);
        let plus = first_index(local, '+');
        if plus < 0 {
            s
        } else {
            local.subrange(0, plus) + seq!['@'] + domain
        }
    }
}

impl AddressMapping {
    /// The address a sub-address delivers to: with mapping enabled,
    /// `local+tag@domain` becomes `local@domain`.
    pub fn to_subaddress(&self, address: &str) -> (r: String)
        ensures
            *self == AddressMapping::Enable ==> r@ == subaddress_spec(address@),
            *self == AddressMapping::Disable ==> r@ == address@,
    {
        if let AddressMapping::Enable = self {
            if let Some((local, domain)) = rsplit_once_char(address, '@') {
                if let Some((base, _)) = split_once_char(local.as_str(), '+') {
                    let mut r = base;
                    r.append("@");
                    r.append(domain.as_str());
                    proof {
                        reveal_strlit("@");
                    }
                    return r;
                }
            }
        }
        String::from_str(address)
    }

    /// The catch-all address of an address's domain (`@domain`), when mapping is
    /// enabled and the address has a domain.
    pub fn to_catch_all(&self, address: &str) -> (r: Option<String>)
        ensures
            *self == AddressMapping::Disable ==> r is None,
            *self == AddressMapping::Enable ==> match r {
                Some(c) => last_index(address@, '@') >= 0 && c@ == seq!['@'] + cut_at(
                    address@,
                    last_index(address@, '@'),
                ).1,
                None => last_index(address@, '@') < 0,
            },
    {
        match self {
            AddressMapping::Enable => match rsplit_once_char(address, '@') {
                Some((_, domain)) => {
                    let mut r = String::from_str("@");
                    r.append(domain.as_str());
                    proof {
                        reveal_strlit("@");
                    }
                    Some(r)
                },
                None => None,
            },
            AddressMapping::Disable => None,
        }
    }
}

/// A field of a principal record.
#[derive(Clone, Copy, Debug, PartialEq, Eq, Structural)]
pub enum PrincipalField {
    Name,
    Type,
    Quota,
    UsedQuota,
    Description,
    Secrets,
    Emails,
    MemberOf,
    Members,
    Tenant,
    Roles,
    Lists,
    EnabledPermissions,
    DisabledPermissions,
    Picture,
}

/// The stored code of a field.
pub open spec fn field_code(f: PrincipalField) -> u8 {
    match f {
        PrincipalField::Name => 0,
        PrincipalField::Type => 1,
        PrincipalField::Quota => 2,
        PrincipalField::UsedQuota => 13,
        PrincipalField::Description => 3,
        PrincipalField::Secrets => 4,
        PrincipalField::Emails => 5,
        PrincipalField::MemberOf => 6,
        PrincipalField::Members => 7,
        PrincipalField::Tenant => 8,
        PrincipalField::Roles => 9,
        PrincipalField::Lists => 10,
        PrincipalField::EnabledPermissions => 11,
        PrincipalField::DisabledPermissions => 12,
        PrincipalField::Picture => 14,
    }
}

/// The name of a field.
pub open spec fn field_name(f: PrincipalField) -> Seq<char> {
    match f {
        PrincipalField::Name => "name"@,
        PrincipalField::Type => "type"@,
        PrincipalField::Quota => "quota"@,
        PrincipalField::UsedQuota => "usedQuota"@,
        PrincipalField::Description => "description"@,
        PrincipalField::Secrets => "secrets"@,
        PrincipalField::Emails => "emails"@,
        PrincipalField::MemberOf => "memberOf"@,
        PrincipalField::Members => "members"@,
        PrincipalField::Tenant => "tenant"@,
        PrincipalField::Roles => "roles"@,
        PrincipalField::Lists => "lists"@,
        PrincipalField::EnabledPermissions => "enabledPermissions"@,
        PrincipalField::DisabledPermissions => "disabledPermissions"@,
        PrincipalField::Picture => "picture"@,
    }
}

impl PrincipalField {
    pub fn id(&self) -> (r: u8)
        ensures
            r == field_code(*self),
    {
        match self {
            PrincipalField::Name => 0,
            PrincipalField::Type => 1,
            PrincipalField::Quota => 2,
            PrincipalField::UsedQuota => 13,
            PrincipalField::Description => 3,
            PrincipalField::Secrets => 4,
            PrincipalField::Emails => 5,
            PrincipalField::MemberOf => 6,
            PrincipalField::Members => 7,
            PrincipalField::Tenant => 8,
            PrincipalField::Roles => 9,
            PrincipalField::Lists => 10,
            PrincipalField::EnabledPermissions => 11,
            PrincipalField::DisabledPermissions => 12,
            PrincipalField::Picture => 14,
        }
    }

    /// The field of a stored code, if any.
    pub fn from_id(id: u8) -> (r: Option<PrincipalField>)
        ensures
            match r {
                Some(f) => field_code(f) == id,
                None => id > 14,
            },
    {
        match id {
            0 => Some(PrincipalField::Name),
            1 => Some(PrincipalField::Type),
            2 => Some(PrincipalField::Quota),
            3 => Some(PrincipalField::Description),
            4 => Some(PrincipalField::Secrets),
            5 => Some(PrincipalField::Emails),
            6 => Some(PrincipalField::MemberOf),
            7 => Some(PrincipalField::Members),
            8 => Some(PrincipalField::Tenant),
            9 => Some(PrincipalField::Roles),
            10 => Some(PrincipalField::Lists),
            11 => Some(PrincipalField::EnabledPermissions),
            12 => Some(PrincipalField::DisabledPermissions),
            13 => Some(PrincipalField::UsedQuota),
            14 => Some(PrincipalField::Picture),
            _ => None,
        }
    }

    pub fn as_str(&self) -> (r: &'static str)
        ensures
            r@ == field_name(*self),
    {
        match self {
            PrincipalField::Name => "name",
            PrincipalField::Type => "type",
            PrincipalField::Quota => "quota",
            PrincipalField::UsedQuota => "usedQuota",
            PrincipalField::Description => "description",
            PrincipalField::Secrets => "secrets",
            PrincipalField::Emails => "emails",
            PrincipalField::MemberOf => "memberOf",
            PrincipalField::Members => "members",
            PrincipalField::Tenant => "tenant",
            PrincipalField::Roles => "roles",
            PrincipalField::Lists => "lists",
            PrincipalField::EnabledPermissions => "enabledPermissions",
            PrincipalField::DisabledPermissions => "disabledPermissions",
            PrincipalField::Picture => "picture",
        }
    }

    /// The field of a name, if any.
    pub fn try_parse(s: &str) -> (r: Option<PrincipalField>)
        ensures
            match r {
                Some(f) => field_name(f) == s@,
                None => forall|f: PrincipalField| field_name(f) != s@,
            },
    {
        if same_str(s, "name") {
            return Some(PrincipalField::Name);
        }
        if same_str(s, "type") {
            return Some(PrincipalField::Type);
        }
        if same_str(s, "quota") {
            return Some(PrincipalField::Quota);
        }
        if same_str(s, "usedQuota") {
            return Some(PrincipalField::UsedQuota);
        }
        if same_str(s, "description") {
            return Some(PrincipalField::Description);
        }
        if same_str(s, "secrets") {
            return Some(PrincipalField::Secrets);
        }
        if same_str(s, "emails") {
            return Some(PrincipalField::Emails);
        }
        if same_str(s, "memberOf") {
            return Some(PrincipalField::MemberOf);
        }
        if same_str(s, "members") {
            return Some(PrincipalField::Members);
        }
        if same_str(s, "tenant") {
            return Some(PrincipalField::Tenant);
        }
        if same_str(s, "roles") {
            return Some(PrincipalField::Roles);
        }
        if same_str(s, "lists") {
            return Some(PrincipalField::Lists);
        }
        if same_str(s, "enabledPermissions") {
            return Some(PrincipalField::EnabledPermissions);
        }
        if same_str(s, "disabledPermissions") {
            return Some(PrincipalField::DisabledPermissions);
        }
        if same_str(s, "picture") {
            return Some(PrincipalField::Picture);
        }
        proof {
            reveal_strlit("name");
            reveal_strlit("type");
            reveal_strlit("quota");
            reveal_strlit("usedQuota");
            reveal_strlit("description");
            reveal_strlit("secrets");
            reveal_strlit("emails");
            reveal_strlit("memberOf");
            reveal_strlit("members");
            reveal_strlit("tenant");
            reveal_strlit("roles");
            reveal_strlit("lists");
            reveal_strlit("enabledPermissions");
            reveal_strlit("disabledPermissions");
            reveal_strlit("picture");
            assert forall|f: PrincipalField| field_name(f) != s@ by {
                match f {
                    PrincipalField::Name => {},
                    PrincipalField::Type => {},
                    PrincipalField::Quota => {},
                    PrincipalField::UsedQuota => {},
                    PrincipalField::Description => {},
                    PrincipalField::Secrets => {},
                    PrincipalField::Emails => {},
                    PrincipalField::MemberOf => {},
                    PrincipalField::Members => {},
                    PrincipalField::Tenant => {},
                    PrincipalField::Roles => {},
                    PrincipalField::Lists => {},
                    PrincipalField::EnabledPermissions => {},
                    PrincipalField::DisabledPermissions => {},
                    PrincipalField::Picture => {},
                }
            }
        }
        None
    }
}

/// What an update does to a field.
#[derive(Clone, Copy, Debug, PartialEq, Eq, Structural)]
pub enum PrincipalAction {
    SetValue,
    AddItem,
    RemoveItem,
}

/// The value of a principal field.
pub enum PrincipalValue {
    String(String),
    StringList(Vec<String>),
    Integer(u64),
    IntegerList(Vec<u64>),
}

/// A change to one field of a principal.
pub struct PrincipalUpdate {
    pub action: PrincipalAction,
    pub field: PrincipalField,
    pub value: PrincipalValue,
}

impl PrincipalUpdate {
    /// Sets the field to the value.
    pub fn set(field: PrincipalField, value: PrincipalValue) -> (r: PrincipalUpdate)
        ensures
            r == (PrincipalUpdate { action: PrincipalAction::SetValue, field, value }),
    {
        PrincipalUpdate { action: PrincipalAction::SetValue, field, value }
    }

    /// Adds the value to the field's list.
    pub fn add_item(field: PrincipalField, value: PrincipalValue) -> (r: PrincipalUpdate)
        ensures
            r == (PrincipalUpdate { action: PrincipalAction::AddItem, field, value }),
    {
        PrincipalUpdate { action: PrincipalAction::AddItem, field, value }
    }

    /// Removes the value from the field's list.
    pub fn remove_item(field: PrincipalField, value: PrincipalValue) -> (r: PrincipalUpdate)
        ensures
            r == (PrincipalUpdate { action: PrincipalAction::RemoveItem, field, value }),
    {
        PrincipalUpdate { action: PrincipalAction::RemoveItem, field, value }
    }
}

pub open spec fn starts_with_spec(s: Seq<char>, prefix: Seq<char>) -> bool {
    prefix.len() <= s.len() && s.subrange(0, prefix.len() as int) == prefix
}

/// Classifies stored secrets.
pub trait SpecialSecrets {
    spec fn secret_text(&self) -> Seq<char>;

    /// A one-time-password configuration (`otpauth://...`).
    fn is_otp_auth(&self) -> (r: bool)
        ensures
            r == starts_with_spec(self.secret_text(), "otpauth://"@),
    ;

    /// An application password (`$app$...`).
    fn is_app_password(&self) -> (r: bool)
        ensures
            r == starts_with_spec(self.secret_text(), "$app$"@),
    ;

    /// A plain password: neither of the above.
    fn is_password(&self) -> (r: bool)
        ensures
            r == (!starts_with_spec(self.secret_text(), "otpauth://"@) && !starts_with_spec(
                self.secret_text(),
                "$app$"@,
            )),
    ;
}

impl SpecialSecrets for String {
    open spec fn secret_text(&self) -> Seq<char> {
        self@
    }

    fn is_otp_auth(&self) -> (r: bool) {
        has_prefix(self.as_str(), "otpauth://")
    }

    fn is_app_password(&self) -> (r: bool) {
        has_prefix(self.as_str(), "$app$")
    }

    fn is_password(&self) -> (r: bool) {
        !self.is_otp_auth() && !self.is_app_password()
    }
}

} // verus!
