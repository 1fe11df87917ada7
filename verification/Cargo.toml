[package]
name = "sierra_to_casm"
version = "0.1.0"
edition = "2021"
publish = false

[dependencies]
cairo-lang-casm = "=2.7.1"
cairo-lang-sierra = "=2.7.1"
cairo-lang-sierra-type-size = "=2.7.1"
cairo-lang-utils = "=2.7.1"
itertools = "=0.12.1"
num-bigint = "=0.4.8"
num-traits = "=0.2.19"
# A dependency of cairo-lang-sierra. Later versions need `size-of`, which
# newer compilers do not build.
starknet-types-core = "=0.1.7"
thiserror = "=1.0.69"
