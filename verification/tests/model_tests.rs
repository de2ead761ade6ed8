use base::component::{Component, ComponentId, ComponentKind, HasKind, ID128, ID32, ID64, IDu};
use base::model::{Model, ModelConfig, ModelError};

#[derive(Clone, Copy, PartialEq, Eq, Debug)]
enum Kind {
    Body,
    Joint,
}

impl ComponentKind for Kind {
    type Id = u64;
    fn same_kind(&self, other: &Self) -> bool {
        *self == *other
    }
}

#[derive(Clone, Debug, PartialEq)]
enum Data {
    Body { mass: u32 },
    Joint { stiffness: u32 },
}

impl HasKind for Data {
    type Kind = Kind;
    fn spec_kind(&self) -> Kind {
        self.kind()
    }
    fn kind(&self) -> Kind {
        match self {
            Data::Body { .. } => Kind::Body,
            Data::Joint { .. } => Kind::Joint,
        }
    }
}

struct Cfg;

impl ModelConfig for Cfg {
    type Kind = Kind;
    type Data = Data;
}

#[test]
fn component_key_reports_data_kind() {
    let c: Component<Data> = Component::new(7, Data::Body { mass: 3 });
    let k = c.key();
    assert_eq!(k.id, 7);
    assert_eq!(k.kind, Kind::Body);
    assert_eq!(c.id(), 7);
    assert_eq!(c.data(), &Data::Body { mass: 3 });
}

#[test]
fn component_id_null_value() {
    assert!(0u64.is_invalid());
    assert!(!3u64.is_invalid());
    assert_eq!(<u32 as ComponentId>::invalid(), 0);
    assert_eq!(5u64.to_option(), Some(5));
    assert_eq!(0usize.to_option(), None);
    assert!(9u128.same_id(&9));
}

#[test]
fn insert_then_get_returns_data() {
    let mut m: Model<Cfg> = Model::new();
    assert!(m.insert(1, Data::Body { mass: 10 }).is_ok());
    assert_eq!(m.get(1, Kind::Body).ok(), Some(&Data::Body { mass: 10 }));
    assert!(matches!(m.get(1, Kind::Joint), Err(ModelError::NotFound(1, Kind::Joint))));
}

#[test]
fn same_id_different_kinds_coexist() {
    let mut m: Model<Cfg> = Model::new();
    assert!(m.insert(4, Data::Body { mass: 1 }).is_ok());
    assert!(m.insert(4, Data::Joint { stiffness: 2 }).is_ok());
    assert_eq!(m.get_clone(4, Kind::Joint).ok(), Some(Data::Joint { stiffness: 2 }));
    assert_eq!(m.get_clone(4, Kind::Body).ok(), Some(Data::Body { mass: 1 }));
}

#[test]
fn insert_refuses_null_and_duplicates() {
    let mut m: Model<Cfg> = Model::new();
    assert!(matches!(m.insert(0, Data::Body { mass: 1 }), Err(ModelError::InvalidId(0, Kind::Body))));
    assert!(m.insert(2, Data::Body { mass: 1 }).is_ok());
    assert!(matches!(
        m.insert(2, Data::Body { mass: 5 }),
        Err(ModelError::AlreadyExists(2, Kind::Body))
    ));
    assert_eq!(m.get(2, Kind::Body).ok(), Some(&Data::Body { mass: 1 }));
    assert!(matches!(m.get(0, Kind::Body), Err(ModelError::InvalidId(0, Kind::Body))));
}

#[test]
fn update_requires_existing_component() {
    let mut m: Model<Cfg> = Model::new();
    assert!(matches!(
        m.update(3, Data::Joint { stiffness: 1 }),
        Err(ModelError::NotFound(3, Kind::Joint))
    ));
    assert!(matches!(m.update(0, Data::Joint { stiffness: 1 }), Err(ModelError::InvalidId(0, Kind::Joint))));
    assert!(m.insert(3, Data::Joint { stiffness: 1 }).is_ok());
    assert!(m.update(3, Data::Joint { stiffness: 9 }).is_ok());
    assert_eq!(m.get(3, Kind::Joint).ok(), Some(&Data::Joint { stiffness: 9 }));
}

#[test]
fn delete_returns_and_removes() {
    let mut m: Model<Cfg> = Model::new();
    assert!(m.insert(5, Data::Body { mass: 7 }).is_ok());
    assert!(m.insert(6, Data::Body { mass: 8 }).is_ok());
    assert_eq!(m.delete(5, Kind::Body).ok(), Some(Data::Body { mass: 7 }));
    assert!(matches!(m.delete(5, Kind::Body), Err(ModelError::NotFound(5, Kind::Body))));
    assert!(matches!(m.delete(0, Kind::Body), Err(ModelError::InvalidId(0, Kind::Body))));
    assert_eq!(m.get(6, Kind::Body).ok(), Some(&Data::Body { mass: 8 }));
}

#[test]
fn get_mut_changes_stored_data() {
    let mut m: Model<Cfg> = Model::new();
    assert!(m.insert(8, Data::Body { mass: 1 }).is_ok());
    if let Ok(d) = m.get_mut(8, Kind::Body) {
        *d = Data::Body { mass: 42 };
    }
    assert_eq!(m.get(8, Kind::Body).ok(), Some(&Data::Body { mass: 42 }));
    assert!(matches!(m.get_mut(9, Kind::Body), Err(ModelError::NotFound(9, Kind::Body))));
}

#[test]
fn component_insert_and_update() {
    let mut m: Model<Cfg> = Model::new();
    assert!(m.insert_comp(Component::new(11, Data::Joint { stiffness: 3 })).is_ok());
    assert!(m.update_comp(Component::new(11, Data::Joint { stiffness: 4 })).is_ok());
    assert!(matches!(
        m.update_comp(Component::new(12, Data::Joint { stiffness: 4 })),
        Err(ModelError::NotFound(12, Kind::Joint))
    ));
    assert_eq!(m.get(11, Kind::Joint).ok(), Some(&Data::Joint { stiffness: 4 }));
}

#[test]
fn components_listed_in_order_and_by_kind() {
    let mut m: Model<Cfg> = Model::new();
    assert!(m.insert(1, Data::Body { mass: 1 }).is_ok());
    assert!(m.insert(2, Data::Joint { stiffness: 2 }).is_ok());
    assert!(m.insert(3, Data::Body { mass: 3 }).is_ok());
    assert_eq!(m.components().len(), 3);
    let bodies = m.components_by_kind(Kind::Body);
    assert_eq!(bodies, vec![&Data::Body { mass: 1 }, &Data::Body { mass: 3 }]);
    assert_eq!(m.components_by_kind(Kind::Joint), vec![&Data::Joint { stiffness: 2 }]);
}

#[test]
fn id_newtypes_reserve_zero() {
    assert_eq!(ID64::new(0), None);
    assert_eq!(ID64::new(9), Some(ID64(9)));
    assert!(ID32::default().is_invalid());
    assert_eq!(<ID128 as ComponentId>::invalid(), ID128(0));
    assert_eq!(IDu::from(4usize), IDu(4));
    assert_eq!(u64::from(ID64(12)), 12);
    assert_eq!(ID64(3).to_option(), Some(ID64(3)));
    assert_eq!(ID32(0).to_option(), None);
    assert!(ID64(5).same_id(&ID64(5)));
    assert!(!ID64(5).same_id(&ID64(6)));
}

#[test]
fn components_mut_writes_through() {
    let mut m: Model<Cfg> = Model::new();
    assert!(m.insert(1, Data::Body { mass: 1 }).is_ok());
    assert!(m.insert(2, Data::Joint { stiffness: 2 }).is_ok());
    assert!(m.insert(3, Data::Body { mass: 3 }).is_ok());
    for d in m.components_mut() {
        if let Data::Body { mass } = d {
            *mass += 10;
        }
    }
    assert_eq!(m.get(1, Kind::Body).ok(), Some(&Data::Body { mass: 11 }));
    assert_eq!(m.get(3, Kind::Body).ok(), Some(&Data::Body { mass: 13 }));
    let joints = m.components_mut_by_kind(Kind::Joint);
    assert_eq!(joints.len(), 1);
    for d in joints {
        *d = Data::Joint { stiffness: 9 };
    }
    assert_eq!(m.get(2, Kind::Joint).ok(), Some(&Data::Joint { stiffness: 9 }));
    assert_eq!(m.get(1, Kind::Body).ok(), Some(&Data::Body { mass: 11 }));
}

#[test]
fn get_mut_then_get_sees_the_write() {
    let mut m: Model<Cfg> = Model::new();
    assert!(m.insert(4, Data::Body { mass: 1 }).is_ok());
    assert!(m.insert(5, Data::Body { mass: 2 }).is_ok());
    *m.get_mut(4, Kind::Body).ok().unwrap() = Data::Body { mass: 40 };
    assert_eq!(m.get(4, Kind::Body).ok(), Some(&Data::Body { mass: 40 }));
    assert_eq!(m.get(5, Kind::Body).ok(), Some(&Data::Body { mass: 2 }));
    assert!(matches!(m.get_mut(0, Kind::Body), Err(ModelError::InvalidId(0, Kind::Body))));
    assert!(matches!(m.get_mut(6, Kind::Body), Err(ModelError::NotFound(6, Kind::Body))));
}

#[test]
fn a_write_of_another_kind_stays_at_its_address() {
    let mut m: Model<Cfg> = Model::new();
    assert!(m.insert(4, Data::Body { mass: 1 }).is_ok());
    assert!(m.insert(5, Data::Body { mass: 2 }).is_ok());
    *m.get_mut(4, Kind::Body).ok().unwrap() = Data::Joint { stiffness: 7 };
    assert_eq!(m.get(4, Kind::Body).ok(), Some(&Data::Joint { stiffness: 7 }));
    assert!(matches!(m.get(4, Kind::Joint), Err(ModelError::NotFound(4, Kind::Joint))));
    assert_eq!(m.get(5, Kind::Body).ok(), Some(&Data::Body { mass: 2 }));
    assert_eq!(m.components_by_kind(Kind::Body).len(), 2);
    assert_eq!(m.delete(4, Kind::Body).ok(), Some(Data::Joint { stiffness: 7 }));
    assert!(m.insert(4, Data::Body { mass: 9 }).is_ok());
}

#[test]
fn an_id_is_null_exactly_when_it_equals_invalid() {
    assert!(IDu(0).is_invalid());
    assert!(!IDu(3).is_invalid());
    assert_eq!(IDu(0), <IDu as ComponentId>::invalid());
    assert!(<ID64 as ComponentId>::invalid().is_invalid());
    assert!(!ID64(9).is_invalid());
    assert!(0u64.is_invalid());
    assert!(!7usize.is_invalid());
    assert_eq!(IDu(5).to_option(), Some(IDu(5)));
    assert_eq!(IDu(0).to_option(), None);
}
