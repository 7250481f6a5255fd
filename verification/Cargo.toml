[package]
name = "field_qa"
version = "0.1.0"
edition = "2021"
publish = false

[dependencies]
ndarray = "=0.15.6"
ndarray-stats = "=0.5.1"
dicom = "=0.6.3"
dicom-pixeldata = { version = "=0.2.2", features = ["ndarray", "image"] }
