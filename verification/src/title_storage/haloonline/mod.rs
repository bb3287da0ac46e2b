pub mod v1_106708_cert_ms23___release;
