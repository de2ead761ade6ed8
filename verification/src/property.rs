use vstd::prelude::*;
use vstd::string::*;

verus! {

/// The type of value a property holds.
#[derive(Clone, Copy, PartialEq, Eq, Structural, Debug, Hash)]
pub enum PropertyValueKind {
    ID,
    Text,
    Number,
    Percent,
    Integer,
    Unsigned,
    Boolean,
}

impl PropertyValueKind {
    /// The variant's name, as `Debug` prints it.
    pub fn name(&self) -> (r: &'static str)
        ensures
            r@ == kind_name(*self),
    {
        match self {
            PropertyValueKind::ID => "ID",
            PropertyValueKind::Text => "Text",
            PropertyValueKind::Number => "Number",
            PropertyValueKind::Percent => "Percent",
            PropertyValueKind::Integer => "Integer",
            PropertyValueKind::Unsigned => "Unsigned",
            PropertyValueKind::Boolean => "Boolean",
        }
    }
}

/// The name of a value kind, as `Debug` prints it.
pub open spec fn kind_name(k: PropertyValueKind) -> Seq<char> {
    match k {
        PropertyValueKind::ID => "ID"@,
        PropertyValueKind::Text => "Text"@,
        PropertyValueKind::Number => "Number"@,
        PropertyValueKind::Percent => "Percent"@,
        PropertyValueKind::Integer => "Integer"@,
        PropertyValueKind::Unsigned => "Unsigned"@,
        PropertyValueKind::Boolean => "Boolean"@,
    }
}

/// Why reading or writing a property failed.
pub enum PropertyError {
    NotFound(String),
    TypeMismatch { expected: PropertyValueKind, got: PropertyValueKind },
    ParseFailed { expected: PropertyValueKind, raw: String },
    InvalidValue(String),
    ReadOnly(String),
}

/// The message that describes an error.
pub open spec fn error_message(e: PropertyError) -> Seq<char> {
    match e {
        PropertyError::NotFound(name) => "property '"@ + name@ + "' not found"@,
        PropertyError::TypeMismatch { expected, got } => "expected "@ + kind_name(expected)
            + ", got "@ + kind_name(got),
        PropertyError::ParseFailed { expected, raw } => "could not parse '"@ + raw@ + "' as "@
            + kind_name(expected),
        PropertyError::InvalidValue(msg) => "invalid value: "@ + msg@,
        PropertyError::ReadOnly(name) => "property '"@ + name@ + "' is read-only"@,
    }
}

impl PropertyError {
    /// A human-readable description of the error.
    pub fn describe(&self) -> (r: String)
        ensures
            r@ == error_message(*self),
    {
        match self {
            PropertyError::NotFound(name) => {
                let mut s = String::from_str("property '");
                s.append(name.as_str());
                s.append("' not found");
                s
            },
            PropertyError::TypeMismatch { expected, got } => {
                let mut s = String::from_str("expected ");
                s.append(expected.name());
                s.append(", got ");
                s.append(got.name());
                s
            },
            PropertyError::ParseFailed { expected, raw } => {
                let mut s = String::from_str("could not parse '");
                s.append(raw.as_str());
                s.append("' as ");
                s.append(expected.name());
                s
            },
            PropertyError::InvalidValue(msg) => {
                let mut s = String::from_str("invalid value: ");
                s.append(msg.as_str());
                s
            },
            PropertyError::ReadOnly(name) => {
                let mut s = String::from_str("property '");
                s.append(name.as_str());
                s.append("' is read-only");
                s
            },
        }
    }
}

/// Display texts that can be rendered in a language.
pub trait DisplayLanguage: Sized + Copy {
    type Lang: Copy;

    /// The text rendered in `lang`.
    fn translate(&self, lang: Self::Lang) -> String;

    /// The untranslated text, shown where no language is chosen.
    fn default_text(&self) -> &'static str;
}

/// Chooses the display texts, languages and unit categories of properties.
pub trait PropertyConfig: Sized {
    type Display: DisplayLanguage<Lang = Self::Lang>;
    type Lang: Copy;
    type UnitCategory: Copy;
}

/// The name of a property or property group: a translatable text, or a plain string.
pub enum PropertyName<C: PropertyConfig> {
    Text(C::Display),
    String(String),
}

impl<C: PropertyConfig> PropertyName<C> {
    pub fn new(name: C::Display) -> (r: Self)
        ensures
            r == PropertyName::<C>::Text(name),
    {
        PropertyName::Text(name)
    }

    pub fn new_str(name: &str) -> (r: Self)
        ensures
            r matches PropertyName::String(s) && s@ == name@,
    {
        PropertyName::String(String::from_str(name))
    }

    /// The name as shown in `lang`: translated text, or the plain string.
    pub fn label(&self, lang: C::Lang) -> (r: String)
        ensures
            match self {
                PropertyName::Text(d) => call_ensures(
                    <C::Display as DisplayLanguage>::translate,
                    (d, lang),
                    r,
                ),
                PropertyName::String(s) => r@ == s@,
            },
    {
        match self {
            PropertyName::Text(d) => d.translate(lang),
            PropertyName::String(s) => s.clone(),
        }
    }

    /// The name as displayed without a language: the display text's
    /// untranslated form, or the plain string.
    pub fn to_string(&self) -> (r: String)
        ensures
            match self {
                PropertyName::Text(d) => exists|t: &'static str|
                    call_ensures(<C::Display as DisplayLanguage>::default_text, (d,), t) && r@
                        == t@,
                PropertyName::String(s) => r@ == s@,
            },
    {
        match self {
            PropertyName::Text(d) => {
                let t = d.default_text();
                String::from_str(t)
            },
            PropertyName::String(s) => s.clone(),
        }
    }

    /// An identical copy of the name.
    pub fn duplicate(&self) -> (r: Self)
        ensures
            r == *self,
    {
        match self {
            PropertyName::Text(d) => PropertyName::Text(*d),
            PropertyName::String(s) => PropertyName::String(s.clone()),
        }
    }
}

impl<C: PropertyConfig> From<String> for PropertyName<C> {
    /// A plain-string name.
    fn from(s: String) -> (r: Self) {
        PropertyName::String(s)
    }
}

impl<C: PropertyConfig> vstd::std_specs::convert::FromSpecImpl<String> for PropertyName<C> {
    open spec fn obeys_from_spec() -> bool {
        true
    }

    open spec fn from_spec(v: String) -> Self {
        PropertyName::String(v)
    }
}

/// Describes one property: its name, value kind, unit category and key.
pub struct PropertySchema<C: PropertyConfig> {
    pub name: PropertyName<C>,
    pub kind: PropertyValueKind,
    pub unit: Option<C::UnitCategory>,
    pub key: u64,
    pub readonly: bool,
}

impl<C: PropertyConfig> PropertySchema<C> {
    /// An identical copy of the schema.
    pub fn duplicate(&self) -> (r: Self)
        ensures
            r == *self,
    {
        PropertySchema {
            name: self.name.duplicate(),
            kind: self.kind,
            unit: self.unit,
            key: self.key,
            readonly: self.readonly,
        }
    }
}

/// A property tree: named groups of properties, with property schemas at the leaves.
pub enum PropertyNode<C: PropertyConfig> {
    Group { name: PropertyName<C>, children: Vec<PropertyNode<C>> },
    Leaf(PropertySchema<C>),
}

/// One leaf of a property tree with the names of the groups above it.
pub struct FlattenedProperty<C: PropertyConfig> {
    pub schema: PropertySchema<C>,
    pub path: Vec<PropertyName<C>>,
}

/// The leaves under `node`, depth first and left to right, each with its group
/// path, when `node` itself sits below the groups `path`.
pub open spec fn leaves<C: PropertyConfig>(node: PropertyNode<C>, path: Seq<PropertyName<C>>) -> Seq<
    (Seq<PropertyName<C>>, PropertySchema<C>),
>
    decreases node,
{
    match node {
        PropertyNode::Leaf(schema) => seq![(path, schema)],
        PropertyNode::Group { name, children } => leaves_of(children@, path.push(name)),
    }
}

/// The leaves under each of `nodes` in turn, all below the groups `path`.
pub open spec fn leaves_of<C: PropertyConfig>(
    nodes: Seq<PropertyNode<C>>,
    path: Seq<PropertyName<C>>,
) -> Seq<(Seq<PropertyName<C>>, PropertySchema<C>)>
    decreases nodes,
{
    if nodes.len() == 0 {
        Seq::empty()
    } else {
        leaves_of(nodes.drop_last(), path) + leaves(nodes.last(), path)
    }
}

/// A flattened property as its group path and its schema.
pub open spec fn flat_view<C: PropertyConfig>(f: FlattenedProperty<C>) -> (
    Seq<PropertyName<C>>,
    PropertySchema<C>,
) {
    (f.path@, f.schema)
}

proof fn lemma_child_smaller<C: PropertyConfig>(node: PropertyNode<C>, i: int)
    requires
        node is Group,
        0 <= i < node->children@.len(),
    ensures
        decreases_to!(node => node->children@[i]),
{
    assert(decreases_to!(node => node->children));
    assert(decreases_to!(node->children => node->children@));
    assert(decreases_to!(node->children@ => node->children@[i]));
}

/// Identical copies of the names, in order.
fn copy_names<C: PropertyConfig>(names: &Vec<PropertyName<C>>) -> (r: Vec<PropertyName<C>>)
    ensures
        r@ == names@,
{
    let mut out: Vec<PropertyName<C>> = Vec::new();
    let n = names.len();
    let mut i: usize = 0;
    while i < n
        invariant
            n == names@.len(),
            i <= n,
            out@ == names@.take(i as int),
        decreases n - i,
    {
        out.push(names[i].duplicate());
        assert(names@.take(i + 1) =~= names@.take(i as int).push(names@[i as int]));
        i = i + 1;
    }
    assert(names@.take(n as int) =~= names@);
    out
}

/// The leaves `xs` with the group path `p` put in front of each of their paths.
pub open spec fn prefixed<C: PropertyConfig>(
    xs: Seq<(Seq<PropertyName<C>>, PropertySchema<C>)>,
    p: Seq<PropertyName<C>>,
) -> Seq<(Seq<PropertyName<C>>, PropertySchema<C>)> {
    xs.map_values(|x: (Seq<PropertyName<C>>, PropertySchema<C>)| (p + x.0, x.1))
}

/// The number of children of a group (none for a leaf).
pub open spec fn child_count<C: PropertyConfig>(n: PropertyNode<C>) -> int {
    match n {
        PropertyNode::Group { children, .. } => children@.len() as int,
        PropertyNode::Leaf(_) => 0,
    }
}

/// Placing a tree below the groups `q` puts `q` in front of every leaf path;
/// likewise for the first `k` children of a group.
proof fn lemma_leaves_prefixed<C: PropertyConfig>(n: PropertyNode<C>, k: int)
    requires
        0 <= k <= child_count(n),
    ensures
        n is Group ==> forall|q: Seq<PropertyName<C>>| #[trigger]
            leaves_of(n->children@.take(k), q) == prefixed(
                leaves_of(n->children@.take(k), Seq::<PropertyName<C>>::empty()),
                q,
            ),
        k == child_count(n) ==> forall|q: Seq<PropertyName<C>>| #[trigger] leaves(n, q)
            == prefixed(leaves(n, Seq::<PropertyName<C>>::empty()), q),
    decreases n, k,
{
    let e = Seq::<PropertyName<C>>::empty();
    match n {
        PropertyNode::Leaf(schema) => {
            assert forall|q: Seq<PropertyName<C>>| #[trigger] leaves(n, q) == prefixed(
                leaves(n, e),
                q,
            ) by {
                assert(q + e =~= q);
                assert(prefixed(leaves(n, e), q) =~= seq![(q, schema)]);
            }
        },
        PropertyNode::Group { name, children } => {
            let cs = children@;
            if k > 0 {
                lemma_leaves_prefixed(n, k - 1);
                lemma_child_smaller(n, k - 1);
                let c = cs[k - 1];
                lemma_leaves_prefixed(c, child_count(c));
                assert(cs.take(k).drop_last() =~= cs.take(k - 1));
                assert(cs.take(k).last() == c);
                assert forall|q: Seq<PropertyName<C>>| #[trigger] leaves_of(cs.take(k), q)
                    == prefixed(leaves_of(cs.take(k), e), q) by {
                    assert(leaves_of(cs.take(k), q) == leaves_of(cs.take(k - 1), q) + leaves(c, q));
                    assert(leaves_of(cs.take(k), e) == leaves_of(cs.take(k - 1), e) + leaves(c, e));
                    assert(leaves_of(cs.take(k - 1), q) == prefixed(leaves_of(cs.take(k - 1), e), q));
                    assert(leaves(c, q) == prefixed(leaves(c, e), q));
                    assert(prefixed(leaves_of(cs.take(k - 1), e) + leaves(c, e), q) =~= prefixed(
                        leaves_of(cs.take(k - 1), e),
                        q,
                    ) + prefixed(leaves(c, e), q));
                }
            } else {
                assert forall|q: Seq<PropertyName<C>>| #[trigger] leaves_of(cs.take(k), q)
                    == prefixed(leaves_of(cs.take(k), e), q) by {
                    assert(cs.take(k).len() == 0);
                    assert(prefixed(leaves_of(cs.take(k), e), q) =~= Seq::<
                        (Seq<PropertyName<C>>, PropertySchema<C>),
                    >::empty());
                }
            }
            if k == child_count(n) {
                assert(cs.take(k) =~= cs);
                assert forall|q: Seq<PropertyName<C>>| #[trigger] leaves(n, q) == prefixed(
                    leaves(n, e),
                    q,
                ) by {
                    let all = leaves_of(cs, e);
                    assert(leaves_of(cs.take(k), q.push(name)) == prefixed(all, q.push(name)));
                    assert(leaves_of(cs.take(k), e.push(name)) == prefixed(all, e.push(name)));
                    assert forall|t: int| 0 <= t < all.len() implies q.push(name) + all[t].0 =~= q
                        + (e.push(name) + all[t].0) by {}
                    assert(prefixed(all, q.push(name)) =~= prefixed(prefixed(all, e.push(name)), q));
                }
            }
        },
    }
}

/// Flattening a group lists its children's leaves in order, each child's as
/// its own flattening gives them, with the group's name put in front of every
/// path.
pub proof fn lemma_group_flattening<C: PropertyConfig>(
    name: C::Display,
    children: Vec<PropertyNode<C>>,
)
    ensures
        leaves(
            PropertyNode::<C>::Group { name: PropertyName::Text(name), children },
            Seq::<PropertyName<C>>::empty(),
        ) == prefixed(
            leaves_of(children@, Seq::<PropertyName<C>>::empty()),
            seq![PropertyName::<C>::Text(name)],
        ),
{
    let n = PropertyNode::<C>::Group { name: PropertyName::Text(name), children };
    lemma_leaves_prefixed(n, child_count(n));
    assert(children@.take(children@.len() as int) =~= children@);
    let q = seq![PropertyName::<C>::Text(name)];
    assert(Seq::<PropertyName<C>>::empty().push(PropertyName::<C>::Text(name)) =~= q);
    assert(leaves_of(children@.take(children@.len() as int), q) == prefixed(
        leaves_of(children@.take(children@.len() as int), Seq::<PropertyName<C>>::empty()),
        q,
    ));
}

impl<C: PropertyConfig> PropertyNode<C> {
    pub fn name(&self) -> (r: &PropertyName<C>)
        ensures
            *r == match self {
                PropertyNode::Group { name, .. } => *name,
                PropertyNode::Leaf(schema) => schema.name,
            },
    {
        match self {
            PropertyNode::Group { name, .. } => name,
            PropertyNode::Leaf(schema) => &schema.name,
        }
    }

    /// A leaf with a translatable name.
    pub fn new(
        name: C::Display,
        kind: PropertyValueKind,
        unit: Option<C::UnitCategory>,
        key: u64,
    ) -> (r: Self)
        ensures
            r == PropertyNode::<C>::Leaf(
                PropertySchema { name: PropertyName::Text(name), kind, unit, key, readonly: false },
            ),
    {
        PropertyNode::Leaf(
            PropertySchema { name: PropertyName::new(name), kind, unit, key, readonly: false },
        )
    }

    /// A read-only leaf with a translatable name.
    pub fn new_readonly(
        name: C::Display,
        kind: PropertyValueKind,
        unit: Option<C::UnitCategory>,
        key: u64,
    ) -> (r: Self)
        ensures
            r == PropertyNode::<C>::Leaf(
                PropertySchema { name: PropertyName::Text(name), kind, unit, key, readonly: true },
            ),
    {
        PropertyNode::Leaf(
            PropertySchema { name: PropertyName::new(name), kind, unit, key, readonly: true },
        )
    }

    /// A numeric leaf measured in `unit`.
    pub fn new_number(name: C::Display, unit: C::UnitCategory, key: u64) -> (r: Self)
        ensures
            r == PropertyNode::<C>::Leaf(
                PropertySchema {
                    name: PropertyName::Text(name),
                    kind: PropertyValueKind::Number,
                    unit: Some(unit),
                    key,
                    readonly: false,
                },
            ),
    {
        Self::new(name, PropertyValueKind::Number, Some(unit), key)
    }

    /// A text leaf.
    pub fn new_text(name: C::Display, key: u64) -> (r: Self)
        ensures
            r == PropertyNode::<C>::Leaf(
                PropertySchema {
                    name: PropertyName::Text(name),
                    kind: PropertyValueKind::Text,
                    unit: None,
                    key,
                    readonly: false,
                },
            ),
    {
        Self::new(name, PropertyValueKind::Text, None, key)
    }

    /// An identifier leaf.
    pub fn new_id(name: C::Display, key: u64) -> (r: Self)
        ensures
            r == PropertyNode::<C>::Leaf(
                PropertySchema {
                    name: PropertyName::Text(name),
                    kind: PropertyValueKind::ID,
                    unit: None,
                    key,
                    readonly: false,
                },
            ),
    {
        Self::new(name, PropertyValueKind::ID, None, key)
    }

    /// A read-only identifier leaf.
    pub fn new_id_readonly(name: C::Display, key: u64) -> (r: Self)
        ensures
            r == PropertyNode::<C>::Leaf(
                PropertySchema {
                    name: PropertyName::Text(name),
                    kind: PropertyValueKind::ID,
                    unit: None,
                    key,
                    readonly: true,
                },
            ),
    {
        Self::new_readonly(name, PropertyValueKind::ID, None, key)
    }

    /// A leaf with a plain-string name.
    pub fn new_str(
        name: &str,
        kind: PropertyValueKind,
        unit: Option<C::UnitCategory>,
        key: u64,
    ) -> (r: Self)
        ensures
            r matches PropertyNode::Leaf(schema) && schema.name matches PropertyName::String(s)
                && s@ == name@ && schema.kind == kind && schema.unit == unit && schema.key == key
                && !schema.readonly,
    {
        PropertyNode::Leaf(
            PropertySchema { name: PropertyName::new_str(name), kind, unit, key, readonly: false },
        )
    }

    /// A numeric leaf with a plain-string name, measured in `unit`.
    pub fn new_number_str(name: &str, unit: C::UnitCategory, key: u64) -> (r: Self)
        ensures
            r matches PropertyNode::Leaf(schema) && schema.name matches PropertyName::String(s)
                && s@ == name@ && schema.kind == PropertyValueKind::Number && schema.unit == Some(
                unit,
            ) && schema.key == key && !schema.readonly,
    {
        Self::new_str(name, PropertyValueKind::Number, Some(unit), key)
    }

    /// A text leaf with a plain-string name.
    pub fn new_text_str(name: &str, key: u64) -> (r: Self)
        ensures
            r matches PropertyNode::Leaf(schema) && schema.name matches PropertyName::String(s)
                && s@ == name@ && schema.kind == PropertyValueKind::Text && schema.unit
                == None::<C::UnitCategory> && schema.key == key && !schema.readonly,
    {
        Self::new_str(name, PropertyValueKind::Text, None, key)
    }

    /// A group of child nodes under a translatable name.
    pub fn new_group(name: C::Display, children: Vec<PropertyNode<C>>) -> (r: Self)
        ensures
            r == (PropertyNode::Group { name: PropertyName::<C>::Text(name), children }),
    {
        PropertyNode::Group { name: PropertyName::new(name), children }
    }

    /// Every leaf of the tree with the names of the groups above it, depth first.
    pub fn flatten(&self) -> (r: Vec<FlattenedProperty<C>>)
        ensures
            r@.map_values(|f: FlattenedProperty<C>| flat_view(f)) == leaves(
                *self,
                Seq::<PropertyName<C>>::empty(),
            ),
    {
        let mut out: Vec<FlattenedProperty<C>> = Vec::new();
        let mut path: Vec<PropertyName<C>> = Vec::new();
        self.flatten_into(&mut path, &mut out);
        assert(out@.map_values(|f: FlattenedProperty<C>| flat_view(f)) =~= Seq::<
            (Seq<PropertyName<C>>, PropertySchema<C>),
        >::empty() + leaves(*self, Seq::<PropertyName<C>>::empty()));
        out
    }

    /// Appends the leaves of the tree below the groups `path` to `out`.
    fn flatten_into(&self, path: &mut Vec<PropertyName<C>>, out: &mut Vec<FlattenedProperty<C>>)
        ensures
            final(path)@ == old(path)@,
            final(out)@.map_values(|f: FlattenedProperty<C>| flat_view(f)) == old(out)@.map_values(
                |f: FlattenedProperty<C>| flat_view(f),
            ) + leaves(*self, old(path)@),
        decreases self,
    {
        match self {
            PropertyNode::Group { name, children } => {
                path.push(name.duplicate());
                let ghost inner = path@;
                let ghost start = out@.map_values(|f: FlattenedProperty<C>| flat_view(f));
                let n = children.len();
                let mut i: usize = 0;
                while i < n
                    invariant
                        n == children@.len(),
                        i <= n,
                        path@ == inner,
                        *self == (PropertyNode::<C>::Group { name: *name, children: *children }),
                        out@.map_values(|f: FlattenedProperty<C>| flat_view(f)) == start
                            + leaves_of(children@.take(i as int), inner),
                    decreases n - i,
                {
                    proof {
                        lemma_child_smaller(*self, i as int);
                    }
                    children[i].flatten_into(path, out);
                    assert(children@.take(i + 1).drop_last() =~= children@.take(i as int));
                    assert(out@.map_values(|f: FlattenedProperty<C>| flat_view(f)) =~= start
                        + leaves_of(children@.take(i + 1), inner));
                    i = i + 1;
                }
                assert(children@.take(n as int) =~= children@);
                path.pop();
                assert(path@ =~= old(path)@);
            },
            PropertyNode::Leaf(schema) => {
                let ghost before = out@;
                out.push(FlattenedProperty { schema: schema.duplicate(), path: copy_names(path) });
                assert(out@.map_values(|f: FlattenedProperty<C>| flat_view(f)) =~= before.map_values(
                    |f: FlattenedProperty<C>| flat_view(f),
                ) + leaves(*self, old(path)@));
            },
        }
    }
}

impl<C: PropertyConfig> FlattenedProperty<C> {
    /// The property's name as shown in `lang`.
    pub fn header(&self, lang: C::Lang) -> (r: String)
        ensures
            match self.schema.name {
                PropertyName::Text(d) => call_ensures(
                    <C::Display as DisplayLanguage>::translate,
                    (&d, lang),
                    r,
                ),
                PropertyName::String(s) => r@ == s@,
            },
    {
        self.schema.name.label(lang)
    }
}

/// Flattening a single leaf gives exactly one entry: the given path with the
/// leaf's own schema, unchanged.
pub proof fn lemma_leaf_flattening<C: PropertyConfig>(
    schema: PropertySchema<C>,
    path: Seq<PropertyName<C>>,
)
    ensures
        leaves(PropertyNode::Leaf(schema), path).len() == 1,
        leaves(PropertyNode::Leaf(schema), path)[0].0 == path,
        leaves(PropertyNode::Leaf(schema), path)[0].1 == schema,
{
}

/// The leaves of a list of nodes are each node's own leaves, in list order:
/// a single node gives its leaves, and two lists joined give their leaves
/// joined.
pub proof fn lemma_leaves_of_concat<C: PropertyConfig>(
    s1: Seq<PropertyNode<C>>,
    s2: Seq<PropertyNode<C>>,
    path: Seq<PropertyName<C>>,
)
    ensures
        leaves_of(Seq::<PropertyNode<C>>::empty(), path) == Seq::<
            (Seq<PropertyName<C>>, PropertySchema<C>),
        >::empty(),
        s1.len() == 1 ==> leaves_of(s1, path) == leaves(s1[0], path),
        leaves_of(s1 + s2, path) == leaves_of(s1, path) + leaves_of(s2, path),
    decreases s2.len(),
{
    if s1.len() == 1 {
        assert(s1.drop_last() =~= Seq::<PropertyNode<C>>::empty());
        assert(leaves_of(s1.drop_last(), path) + leaves(s1.last(), path) =~= leaves(s1[0], path));
    }
    if s2.len() == 0 {
        assert(s1 + s2 =~= s1);
        assert(leaves_of(s1, path) + leaves_of(s2, path) =~= leaves_of(s1, path));
    } else {
        lemma_leaves_of_concat(s1, s2.drop_last(), path);
        assert((s1 + s2).drop_last() =~= s1 + s2.drop_last());
        assert((s1 + s2).last() == s2.last());
        assert(leaves_of(s1 + s2, path) =~= leaves_of(s1, path) + leaves_of(s2, path));
    }
}

} // verus!
