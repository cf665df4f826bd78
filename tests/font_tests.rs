use nxgui::font::{FontRegistry, RegisteredFont};

#[test]
fn find_font_by_name() {
    let mut reg: FontRegistry<u32> = FontRegistry::new();
    assert_eq!(reg.find_font("sans"), None);
    reg.load_font(1, "sans");
    reg.load_font(2, "mono");
    assert_eq!(reg.find_font("sans"), Some(&1));
    assert_eq!(reg.find_font("mono"), Some(&2));
    assert_eq!(reg.find_font("serif"), None);
}

#[test]
fn first_loaded_font_wins() {
    let mut reg: FontRegistry<u32> = FontRegistry::new();
    reg.load_font(1, "sans");
    reg.load_font(2, "sans");
    assert_eq!(reg.find_font("sans"), Some(&1));
}

#[test]
fn registered_font_keeps_name() {
    let f = RegisteredFont::new("title", 7u8);
    assert_eq!(f.name, "title");
    assert_eq!(f.font, 7);
}
