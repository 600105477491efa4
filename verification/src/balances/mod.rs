pub mod accounts;
