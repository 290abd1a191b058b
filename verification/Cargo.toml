[package]
name = "ast_grep_lsp"
version = "0.1.0"
edition = "2021"
publish = false

[dependencies]
ast-grep-core = "*"
ast-grep-config = "*"
serde = { version = "*", features = ["derive"] }
tower-lsp = "*"
tokio = { version = "*", features = ["rt-multi-thread", "io-util", "macros"] }

[dev-dependencies]
ast-grep-language = "*"
serde_json = "*"
