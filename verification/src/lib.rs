//! A PLONK proof system over a polynomial commitment scheme that opens with an
//! inner-product argument, on the cycle of the curves Pallas and Vesta.
//!
//! The layers, from the bottom up: the arithmetic of the two fields and curves
//! ([`arith`], [`field`], [`fp`], [`fq`], [`curve`], [`groupmap`]); the hash and the
//! transcript ([`poseidon`], [`sponge`], [`transcript`]); polynomials and their
//! values over domains ([`poly`], [`evaluations`]); the commitment scheme ([`srs`],
//! [`commitment`], [`shamir`], [`open`], [`verify`], [`bpoly`]); circuits and what
//! their gates contribute ([`gate`], [`constraints`], [`satisfy`], [`polynomials`],
//! [`varbasemul`], [`permutation`], [`scalars`], [`quotient`]); and the proof system
//! itself ([`index`], [`prover`], [`verification`], [`error`]).

pub mod arith;
pub mod bpoly;
pub mod commitment;
pub mod constraints;
pub mod curve;
pub mod error;
pub mod evaluations;
pub mod field;
pub mod fp;
pub mod fq;
pub mod gate;
pub mod groupmap;
pub mod index;
pub mod open;
pub mod permutation;
pub mod poly;
pub mod polynomials;
pub mod poseidon;
pub mod prover;
pub mod quotient;
pub mod satisfy;
pub mod scalars;
pub mod shamir;
pub mod sponge;
pub mod srs;
pub mod transcript;
pub mod varbasemul;
pub mod verification;
pub mod verify;
