use vstd::prelude::*;

verus! {

/// Identifier of a component; one value is reserved as the "null" identifier.
pub trait ComponentId: Sized + Copy {
    /// Whether this is the reserved "null" identifier.
    spec fn spec_is_invalid(&self) -> bool;

    /// The reserved "null" identifier.
    spec fn spec_invalid() -> Self;

    /// An identifier is "null" exactly when it is the reserved identifier.
    proof fn lemma_null_is_invalid(x: Self)
        ensures
            x.spec_is_invalid() <==> x == Self::spec_invalid(),
    ;

    /// The reserved "null" identifier.
    fn invalid() -> (r: Self)
        ensures
            r == Self::spec_invalid(),
            r.spec_is_invalid(),
    ;

    /// Checks if this identifier is the "null" one, by comparing it with
    /// `invalid()`.
    fn is_invalid(&self) -> (r: bool)
        ensures
            r == self.spec_is_invalid(),
            r == (*self == Self::spec_invalid()),
    {
        proof {
            Self::lemma_null_is_invalid(*self);
        }
        let null = Self::invalid();
        self.same_id(&null)
    }

    /// Identifier equality.
    fn same_id(&self, other: &Self) -> (r: bool)
        ensures
            r == (*self == *other),
    ;

    /// `None` for the "null" identifier, the identifier itself otherwise.
    fn to_option(self) -> (r: Option<Self>)
        ensures
            r == (if self.spec_is_invalid() {
                None
            } else {
                Some(self)
            }),
    {
        if self.is_invalid() {
            None
        } else {
            Some(self)
        }
    }
}

impl ComponentId for u32 {
    open spec fn spec_is_invalid(&self) -> bool {
        *self == 0
    }

    open spec fn spec_invalid() -> u32 {
        0
    }

    proof fn lemma_null_is_invalid(x: u32) {
    }

    fn invalid() -> (r: u32) {
        0
    }

    fn same_id(&self, other: &u32) -> (r: bool) {
        *self == *other
    }
}

impl ComponentId for u64 {
    open spec fn spec_is_invalid(&self) -> bool {
        *self == 0
    }

    open spec fn spec_invalid() -> u64 {
        0
    }

    proof fn lemma_null_is_invalid(x: u64) {
    }

    fn invalid() -> (r: u64) {
        0
    }

    fn same_id(&self, other: &u64) -> (r: bool) {
        *self == *other
    }
}

impl ComponentId for u128 {
    open spec fn spec_is_invalid(&self) -> bool {
        *self == 0
    }

    open spec fn spec_invalid() -> u128 {
        0
    }

    proof fn lemma_null_is_invalid(x: u128) {
    }

    fn invalid() -> (r: u128) {
        0
    }

    fn same_id(&self, other: &u128) -> (r: bool) {
        *self == *other
    }
}

impl ComponentId for usize {
    open spec fn spec_is_invalid(&self) -> bool {
        *self == 0
    }

    open spec fn spec_invalid() -> usize {
        0
    }

    proof fn lemma_null_is_invalid(x: usize) {
    }

    fn invalid() -> (r: usize) {
        0
    }

    fn same_id(&self, other: &usize) -> (r: bool) {
        *self == *other
    }
}

/// A component identifier over `usize`; zero is the "null" identifier.
#[derive(Clone, Copy, PartialEq, Eq, Structural, Hash, Debug)]
pub struct IDu(pub usize);

impl IDu {
    /// The identifier `val`, or `None` for the "null" value zero.
    pub fn new(val: usize) -> (r: Option<Self>)
        ensures
            r == (if val == 0 {
                None
            } else {
                Some(IDu(val))
            }),
    {
        let id = IDu(val);
        if id.is_invalid() {
            None
        } else {
            Some(id)
        }
    }
}

impl ComponentId for IDu {
    open spec fn spec_is_invalid(&self) -> bool {
        self.0 == 0
    }

    open spec fn spec_invalid() -> IDu {
        IDu(0)
    }

    proof fn lemma_null_is_invalid(x: IDu) {
    }

    fn invalid() -> (r: IDu) {
        IDu(0)
    }

    fn same_id(&self, other: &IDu) -> (r: bool) {
        self.0 == other.0
    }
}

impl Default for IDu {
    /// The "null" identifier.
    fn default() -> (r: Self)
        ensures
            r.0 == 0,
    {
        IDu(0)
    }
}

impl From<usize> for IDu {
    fn from(val: usize) -> (r: Self) {
        IDu(val)
    }
}

impl vstd::std_specs::convert::FromSpecImpl<usize> for IDu {
    open spec fn obeys_from_spec() -> bool {
        true
    }

    open spec fn from_spec(v: usize) -> Self {
        IDu(v)
    }
}

impl From<IDu> for usize {
    fn from(id: IDu) -> (r: Self) {
        id.0
    }
}

impl vstd::std_specs::convert::FromSpecImpl<IDu> for usize {
    open spec fn obeys_from_spec() -> bool {
        true
    }

    open spec fn from_spec(v: IDu) -> Self {
        v.0
    }
}

/// A component identifier over `u128`; zero is the "null" identifier.
#[derive(Clone, Copy, PartialEq, Eq, Structural, Hash, Debug)]
pub struct ID128(pub u128);

impl ID128 {
    /// The identifier `val`, or `None` for the "null" value zero.
    pub fn new(val: u128) -> (r: Option<Self>)
        ensures
            r == (if val == 0 {
                None
            } else {
                Some(ID128(val))
            }),
    {
        let id = ID128(val);
        if id.is_invalid() {
            None
        } else {
            Some(id)
        }
    }
}

impl ComponentId for ID128 {
    open spec fn spec_is_invalid(&self) -> bool {
        self.0 == 0
    }

    open spec fn spec_invalid() -> ID128 {
        ID128(0)
    }

    proof fn lemma_null_is_invalid(x: ID128) {
    }

    fn invalid() -> (r: ID128) {
        ID128(0)
    }

    fn same_id(&self, other: &ID128) -> (r: bool) {
        self.0 == other.0
    }
}

impl Default for ID128 {
    /// The "null" identifier.
    fn default() -> (r: Self)
        ensures
            r.0 == 0,
    {
        ID128(0)
    }
}

impl From<u128> for ID128 {
    fn from(val: u128) -> (r: Self) {
        ID128(val)
    }
}

impl vstd::std_specs::convert::FromSpecImpl<u128> for ID128 {
    open spec fn obeys_from_spec() -> bool {
        true
    }

    open spec fn from_spec(v: u128) -> Self {
        ID128(v)
    }
}

impl From<ID128> for u128 {
    fn from(id: ID128) -> (r: Self) {
        id.0
    }
}

impl vstd::std_specs::convert::FromSpecImpl<ID128> for u128 {
    open spec fn obeys_from_spec() -> bool {
        true
    }

    open spec fn from_spec(v: ID128) -> Self {
        v.0
    }
}

/// A component identifier over `u64`; zero is the "null" identifier.
#[derive(Clone, Copy, PartialEq, Eq, Structural, Hash, Debug)]
pub struct ID64(pub u64);

impl ID64 {
    /// The identifier `val`, or `None` for the "null" value zero.
    pub fn new(val: u64) -> (r: Option<Self>)
        ensures
            r == (if val == 0 {
                None
            } else {
                Some(ID64(val))
            }),
    {
        let id = ID64(val);
        if id.is_invalid() {
            None
        } else {
            Some(id)
        }
    }
}

impl ComponentId for ID64 {
    open spec fn spec_is_invalid(&self) -> bool {
        self.0 == 0
    }

    open spec fn spec_invalid() -> ID64 {
        ID64(0)
    }

    proof fn lemma_null_is_invalid(x: ID64) {
    }

    fn invalid() -> (r: ID64) {
        ID64(0)
    }

    fn same_id(&self, other: &ID64) -> (r: bool) {
        self.0 == other.0
    }
}

impl Default for ID64 {
    /// The "null" identifier.
    fn default() -> (r: Self)
        ensures
            r.0 == 0,
    {
        ID64(0)
    }
}

impl From<u64> for ID64 {
    fn from(val: u64) -> (r: Self) {
        ID64(val)
    }
}

impl vstd::std_specs::convert::FromSpecImpl<u64> for ID64 {
    open spec fn obeys_from_spec() -> bool {
        true
    }

    open spec fn from_spec(v: u64) -> Self {
        ID64(v)
    }
}

impl From<ID64> for u64 {
    fn from(id: ID64) -> (r: Self) {
        id.0
    }
}

impl vstd::std_specs::convert::FromSpecImpl<ID64> for u64 {
    open spec fn obeys_from_spec() -> bool {
        true
    }

    open spec fn from_spec(v: ID64) -> Self {
        v.0
    }
}

/// A component identifier over `u32`; zero is the "null" identifier.
#[derive(Clone, Copy, PartialEq, Eq, Structural, Hash, Debug)]
pub struct ID32(pub u32);

impl ID32 {
    /// The identifier `val`, or `None` for the "null" value zero.
    pub fn new(val: u32) -> (r: Option<Self>)
        ensures
            r == (if val == 0 {
                None
            } else {
                Some(ID32(val))
            }),
    {
        let id = ID32(val);
        if id.is_invalid() {
            None
        } else {
            Some(id)
        }
    }
}

impl ComponentId for ID32 {
    open spec fn spec_is_invalid(&self) -> bool {
        self.0 == 0
    }

    open spec fn spec_invalid() -> ID32 {
        ID32(0)
    }

    proof fn lemma_null_is_invalid(x: ID32) {
    }

    fn invalid() -> (r: ID32) {
        ID32(0)
    }

    fn same_id(&self, other: &ID32) -> (r: bool) {
        self.0 == other.0
    }
}

impl Default for ID32 {
    /// The "null" identifier.
    fn default() -> (r: Self)
        ensures
            r.0 == 0,
    {
        ID32(0)
    }
}

impl From<u32> for ID32 {
    fn from(val: u32) -> (r: Self) {
        ID32(val)
    }
}

impl vstd::std_specs::convert::FromSpecImpl<u32> for ID32 {
    open spec fn obeys_from_spec() -> bool {
        true
    }

    open spec fn from_spec(v: u32) -> Self {
        ID32(v)
    }
}

impl From<ID32> for u32 {
    fn from(id: ID32) -> (r: Self) {
        id.0
    }
}

impl vstd::std_specs::convert::FromSpecImpl<ID32> for u32 {
    open spec fn obeys_from_spec() -> bool {
        true
    }

    open spec fn from_spec(v: ID32) -> Self {
        v.0
    }
}

/// The kind (category) of a component, tied to its identifier type.
pub trait ComponentKind: Sized + Copy {
    type Id: ComponentId;

    /// Kind equality.
    fn same_kind(&self, other: &Self) -> (r: bool)
        ensures
            r == (*self == *other),
    ;
}

/// Identifies one component: its identifier together with its kind.
pub struct ComponentKey<K: ComponentKind> {
    pub id: K::Id,
    pub kind: K,
}

/// Data that knows which kind of component it belongs to.
pub trait HasKind {
    type Kind: ComponentKind;

    spec fn spec_kind(&self) -> Self::Kind;

    fn kind(&self) -> (r: Self::Kind)
        ensures
            r == self.spec_kind(),
    ;
}

/// Component data with a human-readable kind name.
pub trait ComponentData: HasKind {
    fn kind_name() -> String;
}

/// A component: an identifier and its data.
pub struct Component<D: HasKind> {
    pub id: <D::Kind as ComponentKind>::Id,
    pub data: D,
}

impl<D: HasKind> Component<D> {
    pub fn new(id: <D::Kind as ComponentKind>::Id, data: D) -> (r: Self)
        ensures
            r.id == id,
            r.data == data,
    {
        Component { id, data }
    }

    pub fn id(&self) -> (r: <D::Kind as ComponentKind>::Id)
        ensures
            r == self.id,
    {
        self.id
    }

    pub fn data(&self) -> (r: &D)
        ensures
            *r == self.data,
    {
        &self.data
    }

    /// The identifier together with the kind of the data.
    pub fn key(&self) -> (r: ComponentKey<D::Kind>)
        ensures
            r.id == self.id,
            r.kind == self.data.spec_kind(),
    {
        ComponentKey { id: self.id, kind: self.data.kind() }
    }
}

/// For every primitive identifier type the "null" identifier is zero, and zero
/// is the only "null" identifier.
pub proof fn lemma_primitive_null_id_is_zero(a: u32, b: u64, c: u128, d: usize)
    ensures
        <u32 as ComponentId>::spec_invalid() == 0,
        <u64 as ComponentId>::spec_invalid() == 0,
        <u128 as ComponentId>::spec_invalid() == 0,
        <usize as ComponentId>::spec_invalid() == 0,
        a.spec_is_invalid() <==> a == 0,
        b.spec_is_invalid() <==> b == 0,
        c.spec_is_invalid() <==> c == 0,
        d.spec_is_invalid() <==> d == 0,
{
}

/// For every identifier struct the "null" identifier wraps zero, and it is the
/// only "null" identifier.
pub proof fn lemma_struct_null_id_is_zero(a: IDu, b: ID128, c: ID64, d: ID32)
    ensures
        <IDu as ComponentId>::spec_invalid() == IDu(0),
        <ID128 as ComponentId>::spec_invalid() == ID128(0),
        <ID64 as ComponentId>::spec_invalid() == ID64(0),
        <ID32 as ComponentId>::spec_invalid() == ID32(0),
        a.spec_is_invalid() <==> a.0 == 0,
        b.spec_is_invalid() <==> b.0 == 0,
        c.spec_is_invalid() <==> c.0 == 0,
        d.spec_is_invalid() <==> d.0 == 0,
{
}

} // verus!
