[package]
name = "isaribi"
version = "0.1.0"
edition = "2021"
publish = false

[dependencies]
regex = "=1.13.1"
wasm-bindgen = "=0.2.129"
web-sys = { version = "=0.3.106", features = ["Window", "Document", "Element", "HtmlElement", "HtmlStyleElement", "HtmlCollection", "Node", "StyleSheet", "CssStyleSheet", "CssRuleList", "console"] }
kagura = "0.9.2"
