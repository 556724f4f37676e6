//! Plain records about users, roles and permissions, and the tree of the
//! permissions a user holds through its roles.
use vstd::prelude::*;
use std::collections::HashMap;
use crate::timestamp::Timestamp;

verus! {

broadcast use vstd::std_specs::hash::group_hash_axioms;

/// A record that carries a numeric id.
pub trait HasId {
    spec fn spec_id(&self) -> i32;

    fn get_id(&self) -> (r: i32)
        ensures
            r == self.spec_id(),
    ;
}

/// What a login looks up: the id, the password hash and the blocked flag.
#[derive(Debug)]
pub struct UserIdPasswordBlocked {
    pub id: i32,
    pub password: String,
    pub blocked: Option<bool>,
}

/// A new user: its id and when it was made.
#[derive(Debug)]
pub struct UserIdCreatedAt {
    pub id: i32,
    pub created_at: Timestamp,
}

/// A user made by confirming a registration.
#[derive(Debug)]
pub struct UserCreatedByRegistration {
    pub id: i32,
    pub username: String,
    pub roles: Vec<String>,
    pub email: Option<String>,
    pub created_at: Timestamp,
}

/// A user whose e-mail address changed, and when.
#[derive(Debug)]
pub struct UserIdEmailUpdatedAt {
    pub id: i32,
    pub email: String,
    pub updated_at: Timestamp,
}

/// A permission: an action on a subject.
#[derive(Debug, Clone, Hash, PartialEq, Eq)]
pub struct PermissionSubjectAction {
    pub subject: String,
    pub action: String,
}

impl PermissionSubjectAction {
    /// A copy of the permission.
    pub fn duplicate(&self) -> (r: Self)
        ensures
            r == *self,
    {
        PermissionSubjectAction { subject: self.subject.clone(), action: self.action.clone() }
    }
}

/// The stored names of a user's avatar images.
#[derive(Debug)]
pub struct UserAvatars {
    pub avatar: Option<String>,
    pub avatar128: Option<String>,
}

/// A login name, or an e-mail address.
pub enum EitherUsernameOrEmail {
    Username(String),
    Email(String),
}

/// How much of a user a reader sees.
#[derive(Debug, Clone, Copy, PartialEq, Eq, Structural)]
pub enum UserAccessLevel {
    Public,
    WithoutRoles,
    All,
}

impl Default for UserAccessLevel {
    fn default() -> (r: Self)
        ensures
            r == UserAccessLevel::Public,
    {
        UserAccessLevel::Public
    }
}

/// What anyone may see of a user.
#[derive(Debug)]
pub struct UserPublic {
    pub id: i32,
    pub username: String,
    pub nickname: Option<String>,
    pub avatar: Option<String>,
    pub avatar128: Option<String>,
    pub created_at: Timestamp,
}

/// A user without the roles it holds.
#[derive(Debug)]
pub struct UserWithoutRoles {
    pub id: i32,
    pub username: String,
    pub email: Option<String>,
    pub nickname: Option<String>,
    pub avatar: Option<String>,
    pub avatar128: Option<String>,
    pub blocked: Option<bool>,
    pub created_at: Timestamp,
    pub updated_at: Timestamp,
}

/// A user with the ids of the roles it holds.
#[derive(Debug)]
pub struct UserAll {
    pub id: i32,
    pub username: String,
    pub roles: Vec<i32>,
    pub email: Option<String>,
    pub nickname: Option<String>,
    pub avatar: Option<String>,
    pub avatar128: Option<String>,
    pub blocked: Option<bool>,
    pub created_at: Timestamp,
    pub updated_at: Timestamp,
}

impl From<(UserWithoutRoles, Vec<i32>)> for UserAll {
    fn from(data: (UserWithoutRoles, Vec<i32>)) -> (r: Self) {
        let (user, roles) = data;
        UserAll {
            id: user.id,
            username: user.username,
            roles,
            email: user.email,
            nickname: user.nickname,
            avatar: user.avatar,
            avatar128: user.avatar128,
            blocked: user.blocked,
            created_at: user.created_at,
            updated_at: user.updated_at,
        }
    }
}

impl vstd::std_specs::convert::FromSpecImpl<(UserWithoutRoles, Vec<i32>)> for UserAll {
    open spec fn obeys_from_spec() -> bool {
        true
    }

    open spec fn from_spec(data: (UserWithoutRoles, Vec<i32>)) -> Self {
        UserAll {
            id: data.0.id,
            username: data.0.username,
            roles: data.1,
            email: data.0.email,
            nickname: data.0.nickname,
            avatar: data.0.avatar,
            avatar128: data.0.avatar128,
            blocked: data.0.blocked,
            created_at: data.0.created_at,
            updated_at: data.0.updated_at,
        }
    }
}

/// A user, seen at one of the access levels.
#[derive(Debug)]
pub enum User {
    Public(UserPublic),
    WithoutRoles(UserWithoutRoles),
    All(UserAll),
}

/// Whether `after` is `before` with its name passed through `mapping`.
pub open spec fn mapped_name<F: Fn(&String) -> String>(
    mapping: F,
    before: Option<String>,
    after: Option<String>,
) -> bool {
    match before {
        None => after is None,
        Some(b) => after matches Some(a) && call_ensures(mapping, (&b,), a),
    }
}

impl User {
    /// The two avatar names of the user.
    pub open spec fn avatars(&self) -> (Option<String>, Option<String>) {
        match self {
            User::Public(u) => (u.avatar, u.avatar128),
            User::WithoutRoles(u) => (u.avatar, u.avatar128),
            User::All(u) => (u.avatar, u.avatar128),
        }
    }

    /// The user with its avatar names replaced.
    pub open spec fn with_avatars(&self, avatar: Option<String>, avatar128: Option<String>) -> User {
        match self {
            User::Public(u) => User::Public(UserPublic { avatar, avatar128, ..*u }),
            User::WithoutRoles(u) => User::WithoutRoles(UserWithoutRoles { avatar, avatar128, ..*u }),
            User::All(u) => User::All(UserAll { avatar, avatar128, ..*u }),
        }
    }

    /// Passes each avatar name that is present through `mapping`.
    pub fn map_avatars<F: Fn(&String) -> String>(&mut self, mapping: F)
        requires
            forall|s: &String| call_requires(mapping, (s,)),
        ensures
            *final(self) == old(self).with_avatars(final(self).avatars().0, final(self).avatars().1),
            mapped_name(mapping, old(self).avatars().0, final(self).avatars().0),
            mapped_name(mapping, old(self).avatars().1, final(self).avatars().1),
    {
        match self {
            User::Public(user) => {
                user.avatar = map_name(&user.avatar, &mapping);
                user.avatar128 = map_name(&user.avatar128, &mapping);
            },
            User::WithoutRoles(user) => {
                user.avatar = map_name(&user.avatar, &mapping);
                user.avatar128 = map_name(&user.avatar128, &mapping);
            },
            User::All(user) => {
                user.avatar = map_name(&user.avatar, &mapping);
                user.avatar128 = map_name(&user.avatar128, &mapping);
            },
        }
    }
}

fn map_name<F: Fn(&String) -> String>(name: &Option<String>, mapping: &F) -> (r: Option<String>)
    requires
        forall|s: &String| call_requires(*mapping, (s,)),
    ensures
        mapped_name(*mapping, *name, r),
{
    match name {
        Some(n) => Some(mapping(n)),
        None => None,
    }
}

impl HasId for User {
    open spec fn spec_id(&self) -> i32 {
        match self {
            User::Public(x) => x.id,
            User::WithoutRoles(x) => x.id,
            User::All(x) => x.id,
        }
    }

    fn get_id(&self) -> (r: i32) {
        match self {
            User::Public(x) => x.id,
            User::WithoutRoles(x) => x.id,
            User::All(x) => x.id,
        }
    }
}

/// A role by id and name.
#[derive(Debug)]
pub struct RoleShort {
    id: i32,
    name: String,
}

impl RoleShort {
    pub fn new(id: i32, name: String) -> (r: Self)
        ensures
            r.id() == id,
            r.name() == name,
    {
        RoleShort { id, name }
    }

    pub closed spec fn id(&self) -> i32 {
        self.id
    }

    pub closed spec fn name(&self) -> String {
        self.name
    }
}

/// A role by id and name, with the ids of its permissions.
#[derive(Debug)]
pub struct RoleShortWithPermissions {
    id: i32,
    name: String,
    permissions: Vec<i32>,
}

impl RoleShortWithPermissions {
    pub closed spec fn id(&self) -> i32 {
        self.id
    }

    pub closed spec fn name(&self) -> String {
        self.name
    }

    pub closed spec fn permissions(&self) -> Seq<i32> {
        self.permissions@
    }
}

impl From<(RoleShort, Vec<i32>)> for RoleShortWithPermissions {
    fn from(x: (RoleShort, Vec<i32>)) -> (r: Self) {
        RoleShortWithPermissions { id: x.0.id, name: x.0.name, permissions: x.1 }
    }
}

impl vstd::std_specs::convert::FromSpecImpl<(RoleShort, Vec<i32>)> for RoleShortWithPermissions {
    open spec fn obeys_from_spec() -> bool {
        true
    }

    closed spec fn from_spec(x: (RoleShort, Vec<i32>)) -> Self {
        RoleShortWithPermissions { id: x.0.id, name: x.0.name, permissions: x.1 }
    }
}

/// How much of a role a reader sees.
#[derive(Debug, Clone, Copy, PartialEq, Eq, Structural)]
pub enum RoleAccessLevel {
    Short,
    ShortWithPermissions,
    WithoutPermissions,
    All,
}

/// A permission by id, subject and action.
#[derive(Debug)]
pub struct PermissionShort {
    id: i32,
    subject: String,
    action: String,
}

impl PermissionShort {
    pub fn new(id: i32, subject: String, action: String) -> (r: Self)
        ensures
            r.id() == id,
            r.subject() == subject,
            r.action() == action,
    {
        PermissionShort { id, subject, action }
    }

    pub closed spec fn id(&self) -> i32 {
        self.id
    }

    pub closed spec fn subject(&self) -> String {
        self.subject
    }

    pub closed spec fn action(&self) -> String {
        self.action
    }
}

/// A role with its names and dates, without its permissions.
#[derive(Debug)]
pub struct RoleWithoutPermissions {
    id: i32,
    name: String,
    display_name: String,
    description: String,
    created_at: Timestamp,
    updated_at: Timestamp,
}

impl RoleWithoutPermissions {
    pub fn new(
        id: i32,
        name: String,
        display_name: String,
        description: String,
        created_at: Timestamp,
        updated_at: Timestamp,
    ) -> (r: Self)
        ensures
            r.fields() == (id, name, display_name, description, created_at, updated_at),
    {
        RoleWithoutPermissions { id, name, display_name, description, created_at, updated_at }
    }

    /// The id, name, display name, description, creation and update times.
    pub closed spec fn fields(&self) -> (i32, String, String, String, Timestamp, Timestamp) {
        (self.id, self.name, self.display_name, self.description, self.created_at, self.updated_at)
    }
}

/// A role with its names, dates and the ids of its permissions.
#[derive(Debug)]
pub struct RoleAll {
    id: i32,
    name: String,
    permissions: Vec<i32>,
    display_name: String,
    description: String,
    created_at: Timestamp,
    updated_at: Timestamp,
}

impl RoleAll {
    /// The role's fields as `RoleWithoutPermissions::fields` lists them.
    pub closed spec fn fields(&self) -> (i32, String, String, String, Timestamp, Timestamp) {
        (self.id, self.name, self.display_name, self.description, self.created_at, self.updated_at)
    }

    pub closed spec fn permissions(&self) -> Seq<i32> {
        self.permissions@
    }
}

impl From<(RoleWithoutPermissions, Vec<i32>)> for RoleAll {
    fn from(x: (RoleWithoutPermissions, Vec<i32>)) -> (r: Self) {
        let (role, permissions) = x;
        RoleAll {
            id: role.id,
            name: role.name,
            permissions,
            display_name: role.display_name,
            description: role.description,
            created_at: role.created_at,
            updated_at: role.updated_at,
        }
    }
}

impl vstd::std_specs::convert::FromSpecImpl<(RoleWithoutPermissions, Vec<i32>)> for RoleAll {
    open spec fn obeys_from_spec() -> bool {
        true
    }

    closed spec fn from_spec(x: (RoleWithoutPermissions, Vec<i32>)) -> Self {
        RoleAll {
            id: x.0.id,
            name: x.0.name,
            permissions: x.1,
            display_name: x.0.display_name,
            description: x.0.description,
            created_at: x.0.created_at,
            updated_at: x.0.updated_at,
        }
    }
}

/// A role, seen at one of the access levels.
#[derive(Debug)]
pub enum Role {
    Short(RoleShort),
    ShortWithPermissions(RoleShortWithPermissions),
    WithoutPermissions(RoleWithoutPermissions),
    All(RoleAll),
}

impl HasId for Role {
    open spec fn spec_id(&self) -> i32 {
        match self {
            Role::Short(x) => x.id(),
            Role::ShortWithPermissions(x) => x.id(),
            Role::WithoutPermissions(x) => x.fields().0,
            Role::All(x) => x.fields().0,
        }
    }

    fn get_id(&self) -> (r: i32) {
        match self {
            Role::Short(x) => x.id,
            Role::ShortWithPermissions(x) => x.id,
            Role::WithoutPermissions(x) => x.id,
            Role::All(x) => x.id,
        }
    }
}

/// A permission with its names and dates.
#[derive(Debug)]
pub struct PermissionAll {
    id: i32,
    subject: String,
    action: String,
    display_name: String,
    description: String,
    created_at: Timestamp,
    updated_at: Timestamp,
}

impl PermissionAll {
    pub fn new(
        id: i32,
        subject: String,
        action: String,
        display_name: String,
        description: String,
        created_at: Timestamp,
        updated_at: Timestamp,
    ) -> (r: Self)
        ensures
            r.fields() == (id, subject, action, display_name, description, created_at, updated_at),
    {
        PermissionAll { id, subject, action, display_name, description, created_at, updated_at }
    }

    /// The id, subject, action, display name, description, creation and
    /// update times.
    pub closed spec fn fields(&self) -> (i32, String, String, String, String, Timestamp, Timestamp) {
        (
            self.id,
            self.subject,
            self.action,
            self.display_name,
            self.description,
            self.created_at,
            self.updated_at,
        )
    }
}

/// A permission, seen at one of the access levels.
#[derive(Debug)]
pub enum Permission {
    Short(PermissionShort),
    All(PermissionAll),
}

/// A pending registration: its id, the code sent by e-mail and its dates.
#[derive(Debug)]
pub struct UserRegistration {
    pub id: String,
    pub code: String,
    pub created_at: Timestamp,
    pub expires_at: Timestamp,
}

/// What may be shown of a pending registration.
#[derive(Debug)]
pub struct UserRegistrationPublic {
    pub id: String,
    pub username: String,
    pub email: String,
    pub created_at: Timestamp,
    pub expires_at: Timestamp,
    pub completed: Option<bool>,
}

/// A pending change of e-mail address: its id, the code sent and its dates.
#[derive(Debug)]
pub struct UserEmailUpdating {
    pub id: String,
    pub code: String,
    pub created_at: Timestamp,
    pub expires_at: Timestamp,
}

/// What may be shown of a pending change of e-mail address.
#[derive(Debug)]
pub struct UserEmailUpdatingPublic {
    pub id: String,
    pub user: i32,
    pub new_email: String,
    pub created_at: Timestamp,
    pub expires_at: Timestamp,
    pub completed: Option<bool>,
}

/// How much of a permission a reader sees.
#[derive(Debug, Clone, Copy, PartialEq, Eq, Structural)]
pub enum PermissionAccessLevel {
    Short,
    All,
}

/// The permissions of a user, grouped by the role that grants them: role id
/// to permission id to permission.
#[derive(Debug, PartialEq, Clone)]
pub struct PermissionTree {
    map: HashMap<i32, HashMap<i32, PermissionSubjectAction>>,
}

/// The model of a role table.
pub open spec fn roles_view(m: Map<i32, HashMap<i32, PermissionSubjectAction>>) -> Map<
    i32,
    Map<i32, PermissionSubjectAction>,
> {
    m.map_values(|perms: HashMap<i32, PermissionSubjectAction>| perms@)
}

/// Whether some role of `tree` grants the permission `id`.
pub open spec fn granted(tree: Map<i32, Map<i32, PermissionSubjectAction>>, id: i32) -> bool {
    exists|role: i32| #[trigger] tree.contains_key(role) && tree[role].contains_key(id)
}

/// Whether some role of `tree` grants the permission `id` as `p`.
pub open spec fn granted_as(
    tree: Map<i32, Map<i32, PermissionSubjectAction>>,
    id: i32,
    p: PermissionSubjectAction,
) -> bool {
    exists|role: i32| #[trigger] tree.contains_key(role) && tree[role].contains_key(id) && tree[role][id] == p
}

/// Whether `m` takes, for every permission id granted in `tree`, one of the
/// permissions granted under it, and holds no other id.
pub open spec fn is_selection(
    tree: Map<i32, Map<i32, PermissionSubjectAction>>,
    m: Map<i32, PermissionSubjectAction>,
) -> bool {
    &&& forall|id: i32| #[trigger] m.contains_key(id) <==> granted(tree, id)
    &&& forall|id: i32| #[trigger] m.contains_key(id) ==> granted_as(tree, id, m[id])
}

/// Whether `s` is the subject of a `subscribe` permission of `m`.
pub open spec fn subscribed(m: Map<i32, PermissionSubjectAction>, s: Seq<char>) -> bool {
    exists|id: i32|
        #[trigger] m.contains_key(id) && m[id].action@ == "subscribe"@ && m[id].subject@ == s
}

/// Whether no two strings of `v` hold the same text.
pub open spec fn distinct_texts(v: Seq<String>) -> bool {
    forall|i: int, j: int| 0 <= i < v.len() && 0 <= j < v.len() && i != j ==> #[trigger] v[i]@ != #[trigger] v[j]@
}

fn contains_text(v: &Vec<String>, s: &String) -> (r: bool)
    ensures
        r == exists|i: int| 0 <= i < v@.len() && (#[trigger] v@[i])@ == s@,
{
    let mut i: usize = 0;
    while i < v.len()
        invariant
            i <= v@.len(),
            forall|k: int| 0 <= k < i ==> (#[trigger] v@[k])@ != s@,
        decreases v@.len() - i,
    {
        if v[i] == *s {
            return true;
        }
        i = i + 1;
    }
    false
}

impl View for PermissionTree {
    type V = Map<i32, Map<i32, PermissionSubjectAction>>;

    closed spec fn view(&self) -> Map<i32, Map<i32, PermissionSubjectAction>> {
        roles_view(self.map@)
    }
}

impl PermissionTree {
    pub fn new(map: HashMap<i32, HashMap<i32, PermissionSubjectAction>>) -> (r: Self)
        ensures
            r@ == roles_view(map@),
    {
        PermissionTree { map }
    }

    /// Every permission granted by some role, by permission id. Where two
    /// roles grant one id, the entry is one of theirs.
    pub fn get(&self) -> (r: HashMap<i32, PermissionSubjectAction>)
        ensures
            is_selection(self@, r@),
    {
        let mut out: HashMap<i32, PermissionSubjectAction> = HashMap::new();
        for entry in it: self.map.iter()
            invariant
                forall|id: i32| #[trigger] out@.contains_key(id) ==> granted_as(self@, id, out@[id]),
                forall|role: i32, id: i32|
                    #[trigger] self@.contains_key(role) && #[trigger] self@[role].contains_key(id)
                        ==> out@.contains_key(id) || exists|j: int|
                        it.index() <= j < it.seq().len() && *(#[trigger] it.seq()[j]).0 == role,
        {
            let (role, perms) = entry;
            let ghost before = out@;
            assert(self.map@.contains_key(*role) && self.map@[*role] == *perms);
            for p in it2: perms.iter()
                invariant
                    self.map@.contains_key(*role) && self.map@[*role] == *perms,
                    forall|id: i32| #[trigger] before.contains_key(id) ==> out@.contains_key(id),
                    forall|id: i32| #[trigger] out@.contains_key(id) ==> granted_as(self@, id, out@[id]),
                    forall|id: i32|
                        #[trigger] perms@.contains_key(id) ==> out@.contains_key(id) || exists|j: int|
                            it2.index() <= j < it2.seq().len() && *(#[trigger] it2.seq()[j]).0 == id,
            {
                let (id, action) = p;
                assert(perms@.contains_key(*id) && perms@[*id] == *action);
                out.insert(*id, action.duplicate());
                assert(self@.contains_key(*role));
                assert(granted_as(self@, *id, out@[*id]));
            }
        }
        proof {
            assert forall|id: i32| #[trigger] out@.contains_key(id) implies granted(self@, id) by {
                assert(granted_as(self@, id, out@[id]));
            }
        }
        out
    }

    /// The subjects of the `subscribe` permissions among those of `get`,
    /// each once, in no particular order.
    pub fn get_subscribe(&self) -> (r: Vec<String>)
        ensures
            distinct_texts(r@),
            exists|m: Map<i32, PermissionSubjectAction>|
                is_selection(self@, m) && forall|s: Seq<char>|
                    #![trigger subscribed(m, s)]
                    subscribed(m, s) <==> exists|i: int| 0 <= i < r@.len() && (#[trigger] r@[i])@ == s,
    {
        let all = self.get();
        let ghost m = all@;
        let subscribe = String::from_str("subscribe");
        let mut out: Vec<String> = Vec::new();
        for entry in it: all.iter()
            invariant
                m == all@,
                subscribe@ == "subscribe"@,
                distinct_texts(out@),
                forall|i: int| 0 <= i < out@.len() ==> subscribed(m, (#[trigger] out@[i])@),
                forall|id: i32|
                    #[trigger] m.contains_key(id) && m[id].action@ == "subscribe"@ ==> (exists|i: int|
                        0 <= i < out@.len() && (#[trigger] out@[i])@ == m[id].subject@) || exists|j: int|
                        it.index() <= j < it.seq().len() && *(#[trigger] it.seq()[j]).0 == id,
        {
            let (id, p) = entry;
            assert(m.contains_key(*id) && m[*id] == *p);
            let ghost start = out@;
            if p.action == subscribe && !contains_text(&out, &p.subject) {
                let ghost prev = out@;
                out.push(p.subject.clone());
                proof {
                    assert(out@[prev.len() as int] == p.subject);
                    assert forall|i: int| 0 <= i < out@.len() implies subscribed(m, (#[trigger] out@[i])@) by {
                        if i < prev.len() {
                            assert(out@[i] == prev[i]);
                        }
                    }
                    assert forall|i: int, j: int|
                        0 <= i < out@.len() && 0 <= j < out@.len() && i != j implies #[trigger] out@[i]@ != #[trigger] out@[j]@ by {
                        if i < prev.len() && j < prev.len() {
                            assert(out@[i] == prev[i] && out@[j] == prev[j]);
                        } else if i < prev.len() {
                            assert(out@[i] == prev[i]);
                        } else if j < prev.len() {
                            assert(out@[j] == prev[j]);
                        }
                    }
                }
            }
            proof {
                assert(out@.len() >= start.len());
                assert forall|i: int| 0 <= i < start.len() implies (#[trigger] out@[i]) == start[i] by {}
                assert(p.action@ == "subscribe"@ ==> exists|i: int|
                    0 <= i < out@.len() && (#[trigger] out@[i])@ == p.subject@);
                assert forall|k: i32|
                    #[trigger] m.contains_key(k) && m[k].action@ == "subscribe"@ implies (exists|i: int|
                        0 <= i < out@.len() && (#[trigger] out@[i])@ == m[k].subject@) || exists|j: int|
                        it.index() <= j < it.seq().len() && *(#[trigger] it.seq()[j]).0 == k by {
                    if k != *id {
                        if exists|i: int| 0 <= i < start.len() && (#[trigger] start[i])@ == m[k].subject@ {
                            let i = choose|i: int| 0 <= i < start.len() && (#[trigger] start[i])@ == m[k].subject@;
                            assert(out@[i] == start[i]);
                        }
                    }
                }
            }
        }
        proof {
            assert forall|s: Seq<char>| #![trigger subscribed(m, s)]
                subscribed(m, s) <==> exists|i: int| 0 <= i < out@.len() && (#[trigger] out@[i])@ == s by {
                if subscribed(m, s) {
                    let id = choose|id: i32| #[trigger] m.contains_key(id) && m[id].action@ == "subscribe"@ && m[id].subject@ == s;
                }
            }
        }
        out
    }

    /// Grants the role `role` with the permissions `permissions`, replacing
    /// what it granted before.
    pub fn add_role(&mut self, role: i32, permissions: HashMap<i32, PermissionSubjectAction>)
        ensures
            final(self)@ == old(self)@.insert(role, permissions@),
    {
        self.map.insert(role, permissions);
        proof {
            assert(roles_view(self.map@) =~= old(self)@.insert(role, permissions@));
        }
    }

    /// Drops the role `role`.
    pub fn remove_role(&mut self, role: i32)
        ensures
            final(self)@ == old(self)@.remove(role),
    {
        self.map.remove(&role);
        proof {
            assert(roles_view(self.map@) =~= old(self)@.remove(role));
        }
    }

    /// Grants the permission `permission` through the role `role`, when the
    /// role is present; nothing changes otherwise.
    pub fn add_permission(&mut self, role: i32, permission: i32, subject: String, action: String)
        ensures
            old(self)@.contains_key(role) ==> final(self)@ == old(self)@.insert(
                role,
                old(self)@[role].insert(permission, PermissionSubjectAction { subject, action }),
            ),
            !old(self)@.contains_key(role) ==> final(self)@ == old(self)@,
    {
        match self.map.remove(&role) {
            Some(mut permissions) => {
                permissions.insert(permission, PermissionSubjectAction { subject, action });
                self.map.insert(role, permissions);
                proof {
                    assert(roles_view(self.map@) =~= old(self)@.insert(
                        role,
                        old(self)@[role].insert(permission, PermissionSubjectAction { subject, action }),
                    ));
                }
            },
            None => {
                proof {
                    assert(self.map@ =~= old(self).map@);
                }
            },
        }
    }

    /// Withdraws the permission `permission` from the role `role`, when the
    /// role is present; nothing changes otherwise.
    pub fn remove_permission(&mut self, role: i32, permission: i32)
        ensures
            old(self)@.contains_key(role) ==> final(self)@ == old(self)@.insert(
                role,
                old(self)@[role].remove(permission),
            ),
            !old(self)@.contains_key(role) ==> final(self)@ == old(self)@,
    {
        match self.map.remove(&role) {
            Some(mut permissions) => {
                permissions.remove(&permission);
                self.map.insert(role, permissions);
                proof {
                    assert(roles_view(self.map@) =~= old(self)@.insert(
                        role,
                        old(self)@[role].remove(permission),
                    ));
                }
            },
            None => {
                proof {
                    assert(self.map@ =~= old(self).map@);
                }
            },
        }
    }
}

impl Default for PermissionTree {
    fn default() -> (r: Self)
        ensures
            r@ == Map::<i32, Map<i32, PermissionSubjectAction>>::empty(),
    {
        let r = PermissionTree { map: HashMap::new() };
        proof {
            assert(r@ =~= Map::<i32, Map<i32, PermissionSubjectAction>>::empty());
        }
        r
    }
}

} // verus!
