[package]
name = "alphapuff"
version = "0.1.0"
edition = "2021"
publish = false

[dependencies]
rand = "0.8"
rocket = { version = "0.5", features = ["json"] }
rocket_cors = "0.6"
serde = { version = "1", features = ["derive"] }
serde_json = "1"
reqwest = { version = "0.11", default-features = false, features = ["json"] }
yew = "0.19"
yew-router = "0.16"
wasm-bindgen = "0.2"
wasm-bindgen-futures = "0.4"
gloo-utils = "0.1"
web-sys = { version = "0.3", features = ["CanvasRenderingContext2d", "Document", "DomRect", "Element", "Event", "HtmlCanvasElement", "HtmlInputElement", "HtmlSelectElement", "MouseEvent", "Window", "console"] }
