pub mod haloonline;
