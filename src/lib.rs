pub mod csv_data_handle;
pub mod csv_holder;
pub mod text;
pub mod csv_io;
pub mod csv_request;
pub mod session;
