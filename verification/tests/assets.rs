use fulgur_core::assets::{AssetFile, Assets};
use fulgur_core::text::{decimal, same_text, starts_with, strip_prefix};

fn assets() -> Assets {
    let file = |name: &str, data: &[u8]| AssetFile {
        name: name.to_string(),
        data: data.to_vec(),
    };
    Assets {
        files: vec![
            file("icon.png", b"png"),
            file("icons/add.svg", b"add"),
            file("icons/close.svg", b"close"),
            file("assets/icon.png", b"inner"),
        ],
    }
}

#[test]
fn assets_load_by_name() {
    let assets = assets();
    assert_eq!(assets.load("icon.png").unwrap(), b"png");
    assert_eq!(assets.load("icons/add.svg").unwrap(), b"add");
    assert_eq!(assets.load("icons\\add.svg").unwrap(), b"add");
    assert!(assets.load("").is_none());
    assert!(assets.load("icons").is_none());
    assert!(assets.load("Icon.png").is_none());
}

#[test]
fn assets_prefix_is_optional() {
    let assets = assets();
    assert_eq!(assets.load("assets/icons/close.svg").unwrap(), b"close");
    assert_eq!(assets.load("assets/icon.png").unwrap(), b"inner");
    assert_eq!(assets.load("assets/assets/icon.png").unwrap(), b"inner");
    assert!(assets.load("assets/").is_none());
    assert!(assets.load("assets/missing").is_none());
    assert!(assets.load("asset/icon.png").is_none());
}

#[test]
fn assets_are_listed_by_prefix() {
    let assets = assets();
    assert_eq!(
        assets.list("icon"),
        ["icon.png", "icons/add.svg", "icons/close.svg"]
    );
    assert_eq!(assets.list("icons/c"), ["icons/close.svg"]);
    assert_eq!(assets.list("").len(), 4);
    assert!(assets.list("x").is_empty());
    for name in assets.list("") {
        assert!(assets.load(&name).is_some());
        let longer = format!("assets/{name}");
        assert!(assets.load(&longer).is_some());
        if assets.get(&longer).is_none() {
            assert_eq!(assets.load(&longer), assets.load(&name));
        }
    }
}

#[test]
fn text_helpers() {
    assert_eq!(decimal(0), "0");
    assert_eq!(decimal(1234567890), "1234567890");
    assert!(starts_with("abc", "") && starts_with("abc", "ab") && !starts_with("ab", "abc"));
    assert!(same_text("\u{e9}", "\u{e9}") && !same_text("a", "A"));
    assert_eq!(strip_prefix("\u{e9}bc", "\u{e9}"), Some("bc"));
    assert_eq!(strip_prefix("abc", "b"), None);
}
