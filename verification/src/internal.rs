pub mod highway;
