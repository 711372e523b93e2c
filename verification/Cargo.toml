[package]
name = "step_circuits"
version = "0.1.0"
edition = "2021"
publish = false

[dependencies]
ff = "=0.13.1"
generic-array = "=0.14.7"
halo2curves = "=0.9.0"
neptune = "=13.0.0"
nova-snark = "=0.76.0"
rand = "=0.8.8"
