pub mod asteroid;
