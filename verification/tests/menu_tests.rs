use render_api::attr::AttributeSet;
use render_api::menu::{
    decode_item, encode_item, MenuContext, MenuState, ResolvedItem, Section, SectionItem,
};

#[test]
fn menu_context_base_vocabulary_tags() {
    assert_eq!(MenuContext::Invisible.kind_tag(), b"invisible".to_vec());
    assert_eq!(MenuContext::Main.kind_tag(), b"main".to_vec());
    assert_eq!(MenuContext::Pause.kind_tag(), b"pause".to_vec());
    assert_eq!(MenuContext::Inventory.kind_tag(), b"inventory".to_vec());
    assert_eq!(MenuContext::Summary.kind_tag(), b"summary".to_vec());
    assert_eq!(MenuContext::Loadout.kind_tag(), b"loadout".to_vec());
}

#[test]
fn text_item_round_trip() {
    let item = SectionItem::Text(b"New Game".to_vec());
    let wire = encode_item(&item);
    assert_eq!(wire, b"t:New Game".to_vec());
    match decode_item(&wire) {
        Some(SectionItem::Text(t)) => assert_eq!(t, b"New Game".to_vec()),
        _ => panic!("a t: item decodes to text"),
    }
}

#[test]
fn subsection_item_round_trip() {
    let item = SectionItem::SubsectionRef(42);
    let wire = encode_item(&item);
    assert_eq!(wire, b"s:42".to_vec());
    match decode_item(&wire) {
        Some(SectionItem::SubsectionRef(k)) => assert_eq!(k, 42),
        _ => panic!("an s: item decodes to a subsection reference"),
    }
}

#[test]
fn subsection_zero_round_trip() {
    let wire = encode_item(&SectionItem::SubsectionRef(0));
    assert_eq!(wire, b"s:0".to_vec());
    assert!(matches!(
        decode_item(&wire),
        Some(SectionItem::SubsectionRef(0))
    ));
}

#[test]
fn decode_rejects_malformed_items() {
    assert!(decode_item(&b"".to_vec()).is_none());
    assert!(decode_item(&b"t".to_vec()).is_none());
    assert!(decode_item(&b"x:1".to_vec()).is_none());
    assert!(decode_item(&b"s;1".to_vec()).is_none());
    assert!(decode_item(&b"s:".to_vec()).is_none());
    assert!(decode_item(&b"s:4a".to_vec()).is_none());
    // A leading zero is not the canonical numeral.
    assert!(decode_item(&b"s:007".to_vec()).is_none());
    // An index beyond any usize.
    assert!(decode_item(&b"s:99999999999999999999999999".to_vec()).is_none());
}

#[test]
fn decode_text_may_hold_anything() {
    match decode_item(&b"t:a:b:c".to_vec()) {
        Some(SectionItem::Text(t)) => assert_eq!(t, b"a:b:c".to_vec()),
        _ => panic!("text keeps its colons"),
    }
}

#[test]
fn section_validation_checks_references() {
    let mut good = Section::leaf(b"Main".to_vec());
    good.subsections.push(Section::leaf(b"Options".to_vec()));
    good.items.push(SectionItem::Text(b"Start".to_vec()));
    good.items.push(SectionItem::SubsectionRef(0));
    assert!(good.validate());

    let mut dangling = Section::leaf(b"Main".to_vec());
    dangling.items.push(SectionItem::SubsectionRef(3));
    assert!(!dangling.validate());

    let mut bad_selection = Section::leaf(b"Main".to_vec());
    bad_selection.items.push(SectionItem::Text(b"Start".to_vec()));
    bad_selection.selected_item = 5;
    assert!(!bad_selection.validate());
}

#[test]
fn items_resolve_to_text_or_subsection() {
    let mut root = Section::leaf(b"Main".to_vec());
    root.subsections.push(Section::leaf(b"Options".to_vec()));
    root.items.push(SectionItem::Text(b"Start".to_vec()));
    root.items.push(SectionItem::SubsectionRef(0));
    assert!(root.validate());

    match root.resolve_item(0) {
        ResolvedItem::Text(t) => assert_eq!(t, &b"Start".to_vec()),
        _ => panic!("the first item is text"),
    }
    match root.resolve_item(1) {
        ResolvedItem::Subsection(sec) => assert_eq!(sec.title, b"Options".to_vec()),
        _ => panic!("the second item references a subsection"),
    }
}

#[test]
fn menu_validation_descends_into_sections() {
    let mut menu = MenuState {
        kind: b"main".to_vec(),
        sections: vec![Section::leaf(b"Main".to_vec())],
        selected_section: 0,
        attrs: AttributeSet::new(),
    };
    assert!(menu.validate());

    menu.selected_section = 2;
    assert!(!menu.validate());

    menu.selected_section = 0;
    let mut broken = Section::leaf(b"Broken".to_vec());
    broken.items.push(SectionItem::SubsectionRef(9));
    menu.sections.push(broken);
    assert!(!menu.validate());
}
