pub mod bytes_new;
pub mod conv_fnmut_fn;
pub mod direct_fnonce;
pub mod fn_static;
pub mod shift2;
pub mod struct_arg;
