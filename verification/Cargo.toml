[package]
name = "multi_draggable"
version = "0.1.0"
edition = "2021"
publish = false

[dependencies]
leptos = { version = "0.6", features = ["csr"] }
leptos_meta = { version = "0.6", features = ["csr"] }
leptos_router = { version = "0.6", features = ["csr"] }
leptos-use = "0.10"
wasm-bindgen = "0.2"
web-sys = { version = "0.3", features = ["Element", "Node", "DomRect", "Event", "InputEvent", "ScrollIntoViewOptions", "ScrollBehavior", "HtmlElement", "HtmlDivElement", "Window", "Document", "CssStyleDeclaration"] }
