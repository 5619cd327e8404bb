[package]
name = "comment_relay"
version = "0.1.0"
edition = "2021"
publish = false

[dependencies]
bytes = "=1.12.1"
bincode = "=1.3.3"
serde = { version = "1", features = ["derive"] }
log = "0.4"
futures = "0.3"
actix = "0.13"
actix-web = { version = "4", default-features = false, features = ["macros", "ws"] }
actix-web-actors = "4"
actix-cors = "0.7"
actix-files = "0.6"
diesel = { version = "2", default-features = false, features = ["postgres", "r2d2"] }
sqlx = { version = "0.7", default-features = false, features = ["postgres", "runtime-tokio"] }
dotenvy = "0.15"
env_logger = "0.11"
gloo = "0.10"
gloo-net = "0.4"
wasm-bindgen = "0.2"
wasm-bindgen-futures = "0.4"
wasm-logger = "0.2"
web-sys = { version = "0.3", features = ["Window", "Location", "HtmlFormElement", "HtmlInputElement", "HtmlTextAreaElement", "HtmlFormControlsCollection", "HtmlCollection", "Element", "EventTarget", "Event", "SubmitEvent"] }
yew = { version = "0.21", features = ["csr"] }
yew-agent = "0.3"
yew-router = "0.18"
yewdux = "0.11"

[dev-dependencies]
serde_json = "=1.0.154"
