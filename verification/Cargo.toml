[package]
name = "mandelbrot"
version = "1.5.0"
edition = "2021"
publish = false

[dependencies]
angular-units = "0.2"
chrono = "0.4"
minifb = "0.25"
num = "0.4"
num_cpus = "1"
png = "0.17"
prisma = "0.1"
rand = "0.8"
