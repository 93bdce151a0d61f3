[package]
name = "calendar_pdf"
version = "0.1.0"
edition = "2021"
publish = false

[dependencies]
chrono = { version = "=0.4.45", default-features = false }
egui = { version = "=0.37.0", default-features = false }
eframe = { version = "=0.37.0", default-features = false, features = ["persistence", "glow", "x11"] }
printpdf = { version = "=0.12.8", default-features = false, features = ["text_layout"] }
azul-layout = { version = "=0.0.16", default-features = false, features = ["text_layout"] }
serde = { version = "=1.0.229", features = ["derive"] }
