[package]
name = "sonic_span"
version = "1.1.0"
edition = "2021"
publish = false

[dependencies]
anyhow = "1"
async-trait = "0.1"
clap = { version = "4", features = ["derive"] }
cpal = "0.15"
futures-util = { version = "0.3", features = ["sink"] }
jni = "0.21"
js-sys = "0.3"
opus = "0.3"
thiserror = "1"
tokio = { version = "1", features = ["net", "rt", "rt-multi-thread", "macros", "sync", "time", "io-util", "fs"] }
tokio-tungstenite = "0.24"
wasm-bindgen = "0.2"
wasm-bindgen-futures = "0.4"
web-sys = { version = "0.3", features = ["AudioContext", "AudioContextOptions", "AudioDestinationNode", "AudioNode", "AudioParam", "AudioWorklet", "AudioWorkletNode", "AudioWorkletNodeOptions", "BaseAudioContext", "BinaryType", "CloseEvent", "Event", "EventTarget", "GainNode", "MessageEvent", "MessagePort", "WebSocket", "Worklet"] }
