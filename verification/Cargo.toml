[package]
name = "dominator"
version = "0.5.24"
edition = "2021"
publish = false

[dependencies]
futures = "=0.3.34"
discard = "=1.0.4"
serde = { version = "=1.0.229", features = ["derive"] }
wasm-bindgen = "=0.2.130"
wasm-bindgen-futures = "0.4"
js-sys = "=0.3.107"
web-sys = { version = "=0.3.107", features = ["Document", "Window", "Element", "HtmlElement", "Node", "Text", "CssStyleDeclaration", "DomTokenList", "EventTarget", "Event", "History", "Location", "CssStyleSheet", "CssRuleList", "CssRule", "CssStyleRule", "HtmlStyleElement", "HtmlHeadElement", "MouseEvent", "Performance", "StyleSheet"] }
futures-signals = "=0.3.34"
gloo-events = "0.1"
once_cell = "=1.21.4"
