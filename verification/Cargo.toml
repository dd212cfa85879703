[package]
name = "game_of_life"
version = "0.1.0"
edition = "2021"
publish = false

[dependencies]
fixedbitset = "*"
wasm-bindgen = "*"
js-sys = "*"
web-sys = { version = "*", features = ["console", "Window", "Document", "Element", "EventTarget", "HtmlCanvasElement", "HtmlElement", "WebGlBuffer", "WebGlProgram", "WebGlRenderingContext", "WebGlShader", "MouseEvent", "DomRect"] }
