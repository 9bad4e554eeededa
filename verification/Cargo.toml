[package]
name = "csv_render"
version = "0.1.0"
edition = "2021"
publish = false

[dependencies]
console_error_panic_hook = "0.1"
csv = "1"
handlebars = "5"
leptos = { version = "0.6", features = ["csr"] }
leptos_meta = { version = "0.6", features = ["csr"] }
leptos-use = "0.13"
serde_json = "1"
urlencoding = "2"
web-sys = { version = "0.3", features = ["File", "FileList", "FileReader", "HtmlAnchorElement", "HtmlInputElement", "ProgressEvent"] }
