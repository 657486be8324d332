[package]
name = "interceptiondetector"
version = "0.1.0"
edition = "2021"
publish = false

[dependencies]
adsbx_json = "=21.1.0"
bzip2 = "=0.6.1"
chrono = "=0.4.45"
geo = "=0.33.1"
indicatif = "=0.18.6"
num-traits = "=0.2.19"
pariter = "=0.6.0"
rstar = "=0.13.0"
structopt = "=0.3.26"
thiserror = "=2.0.21"
