pub mod late;
