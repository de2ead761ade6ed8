use base::property::{
    DisplayLanguage, PropertyConfig, PropertyError, PropertyName, PropertyNode, PropertyValueKind,
};

#[derive(Clone, Copy, PartialEq, Eq, Debug)]
enum Label {
    Mass,
    Body,
    Id,
}

#[derive(Clone, Copy, PartialEq, Eq, Debug)]
enum Lang {
    En,
    De,
}

impl DisplayLanguage for Label {
    type Lang = Lang;
    fn translate(&self, lang: Lang) -> String {
        match (self, lang) {
            (Label::Mass, Lang::En) => "Mass".to_string(),
            (Label::Mass, Lang::De) => "Masse".to_string(),
            (Label::Body, Lang::En) => "Body".to_string(),
            (Label::Body, Lang::De) => "Koerper".to_string(),
            (Label::Id, _) => "ID".to_string(),
        }
    }

    fn default_text(&self) -> &'static str {
        match self {
            Label::Mass => "Mass",
            Label::Body => "Body",
            Label::Id => "ID",
        }
    }
}

#[derive(Clone, Copy, PartialEq, Eq, Debug)]
enum Unit {
    Mass,
}

struct Cfg;

impl PropertyConfig for Cfg {
    type Display = Label;
    type Lang = Lang;
    type UnitCategory = Unit;
}

fn name_label(n: &PropertyName<Cfg>) -> String {
    n.label(Lang::En)
}

#[test]
fn labels_translate_or_pass_through() {
    let t: PropertyName<Cfg> = PropertyName::new(Label::Mass);
    assert_eq!(t.label(Lang::De), "Masse");
    let s: PropertyName<Cfg> = PropertyName::new_str("custom");
    assert_eq!(s.label(Lang::De), "custom");
    assert_eq!(name_label(&s.duplicate()), "custom");
}

#[test]
fn flatten_lists_leaves_with_group_paths() {
    let tree: PropertyNode<Cfg> = PropertyNode::new_group(
        Label::Body,
        vec![
            PropertyNode::new_id_readonly(Label::Id, 1),
            PropertyNode::new_group(
                Label::Mass,
                vec![PropertyNode::new_number(Label::Mass, Unit::Mass, 2), PropertyNode::new_text_str("note", 3)],
            ),
            PropertyNode::new_number_str("extra", Unit::Mass, 4),
        ],
    );
    let flat = tree.flatten();
    assert_eq!(flat.len(), 4);
    let keys: Vec<u64> = flat.iter().map(|f| f.schema.key).collect();
    assert_eq!(keys, vec![1, 2, 3, 4]);
    let paths: Vec<Vec<String>> = flat.iter().map(|f| f.path.iter().map(name_label).collect()).collect();
    assert_eq!(paths[0], vec!["Body".to_string()]);
    assert_eq!(paths[1], vec!["Body".to_string(), "Mass".to_string()]);
    assert_eq!(paths[2], vec!["Body".to_string(), "Mass".to_string()]);
    assert_eq!(paths[3], vec!["Body".to_string()]);
    assert!(flat[0].schema.readonly);
    assert_eq!(flat[0].schema.kind, PropertyValueKind::ID);
    assert_eq!(flat[1].schema.unit, Some(Unit::Mass));
    assert_eq!(flat[2].schema.kind, PropertyValueKind::Text);
    assert_eq!(flat[2].header(Lang::En), "note");
    assert_eq!(flat[1].header(Lang::De), "Masse");
}

#[test]
fn leaf_flattens_to_itself() {
    let leaf: PropertyNode<Cfg> = PropertyNode::new(Label::Mass, PropertyValueKind::Number, None, 9);
    let flat = leaf.flatten();
    assert_eq!(flat.len(), 1);
    assert!(flat[0].path.is_empty());
    assert_eq!(flat[0].schema.key, 9);
    assert_eq!(name_label(leaf.name()), "Mass");
    let ro: PropertyNode<Cfg> = PropertyNode::new_readonly(Label::Mass, PropertyValueKind::Integer, None, 5);
    assert_eq!(ro.flatten()[0].schema.readonly, true);
    let id: PropertyNode<Cfg> = PropertyNode::new_id(Label::Id, 6);
    assert_eq!(id.flatten()[0].schema.kind, PropertyValueKind::ID);
    let txt: PropertyNode<Cfg> = PropertyNode::new_text(Label::Id, 7);
    assert_eq!(txt.flatten()[0].schema.kind, PropertyValueKind::Text);
    let s: PropertyNode<Cfg> = PropertyNode::new_str("s", PropertyValueKind::Boolean, None, 8);
    assert_eq!(name_label(s.name()), "s");
}

#[test]
fn error_messages() {
    assert_eq!(PropertyError::NotFound("mass".to_string()).describe(), "property 'mass' not found");
    assert_eq!(
        PropertyError::TypeMismatch { expected: PropertyValueKind::Number, got: PropertyValueKind::Text }.describe(),
        "expected Number, got Text"
    );
    assert_eq!(
        PropertyError::ParseFailed { expected: PropertyValueKind::Integer, raw: "x1".to_string() }.describe(),
        "could not parse 'x1' as Integer"
    );
    assert_eq!(PropertyError::InvalidValue("neg".to_string()).describe(), "invalid value: neg");
    assert_eq!(PropertyError::ReadOnly("id".to_string()).describe(), "property 'id' is read-only");
    assert_eq!(PropertyValueKind::Unsigned.name(), format!("{:?}", PropertyValueKind::Unsigned));
}

#[test]
fn name_from_string_is_plain() {
    let n: PropertyName<Cfg> = PropertyName::from(String::from("Velocity"));
    assert_eq!(n.label(Lang::De), "Velocity");
    assert!(matches!(n, PropertyName::String(_)));
}

#[test]
fn group_flattening_prefixes_each_childs_leaves() {
    let child_a: PropertyNode<Cfg> = PropertyNode::new_group(
        Label::Mass,
        vec![PropertyNode::new_text_str("a", 1), PropertyNode::new_text_str("b", 2)],
    );
    let child_b: PropertyNode<Cfg> = PropertyNode::new_text_str("c", 3);
    let alone_a: Vec<(Vec<String>, u64)> = child_a
        .flatten()
        .iter()
        .map(|f| (f.path.iter().map(name_label).collect(), f.schema.key))
        .collect();
    let group: PropertyNode<Cfg> = PropertyNode::new_group(Label::Body, vec![child_a, child_b]);
    let flat: Vec<(Vec<String>, u64)> = group
        .flatten()
        .iter()
        .map(|f| (f.path.iter().map(name_label).collect(), f.schema.key))
        .collect();
    assert_eq!(flat.len(), 3);
    for (i, (path, key)) in alone_a.iter().enumerate() {
        let mut expected = vec!["Body".to_string()];
        expected.extend(path.iter().cloned());
        assert_eq!(flat[i], (expected, *key));
    }
    assert_eq!(flat[2], (vec!["Body".to_string()], 3));
}

#[test]
fn names_display_their_default_text() {
    let s: PropertyName<Cfg> = PropertyName::new_str("Speed");
    assert_eq!(s.to_string(), "Speed");
    assert_eq!(s.label(Lang::En), "Speed");
    assert_eq!(s.label(Lang::De), "Speed");
    assert!(matches!(&s, PropertyName::String(v) if v == "Speed"));
    let t: PropertyName<Cfg> = PropertyName::new(Label::Body);
    assert_eq!(t.to_string(), "Body");
    assert_eq!(t.label(Lang::De), "Koerper");
}
