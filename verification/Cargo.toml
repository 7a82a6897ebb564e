[package]
name = "markdown_img_url_editor"
version = "0.1.0"
edition = "2021"
publish = false

[dependencies]
pulldown-cmark = { version = "0.9", default-features = false }
js-sys = "0.3"
wasm-bindgen = "0.2"
console_error_panic_hook = "0.1"
