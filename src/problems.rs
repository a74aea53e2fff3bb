pub mod cons;
pub mod dna;
pub mod fib;
pub mod fibd;
pub mod gc;
pub mod grph;
pub mod hamm;
pub mod iev;
pub mod lia;
pub mod mprt;
pub mod mrna;
pub mod orf;
pub mod prot;
pub mod revc;
pub mod rna;
pub mod splc;
pub mod subs;
