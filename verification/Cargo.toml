[package]
name = "scherben_map"
version = "0.1.0"
edition = "2021"
publish = false

[dependencies]
fnv = "=1.0.7"
hashbrown = { version = "=0.13.2", features = ["raw"] }
# The locks come from parking_lot itself: the registry has no package parking_lot_utils.
parking_lot = "=0.12.5"
