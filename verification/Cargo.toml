[package]
name = "led_matrix"
version = "0.1.0"
edition = "2021"
publish = false

[dependencies]
embedded-graphics = "=0.7.1"
panic-halt = "=0.2.0"
smart-leds = "=0.3.0"
ufmt = "=0.1.2"
ws2812-blocking-spi = "=0.2.0"
