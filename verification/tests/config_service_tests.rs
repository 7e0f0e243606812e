use bullmq_rust::ConfigService;

#[test]
fn test_config_service_creation() {
    let config_service = ConfigService {
        redis_url: "redis://redis:6379".to_string(),
    };
    assert_eq!(config_service.redis_url, "redis://redis:6379");

    let config_service = ConfigService {
        redis_url: "".to_string(),
    };
    assert_ne!(config_service.redis_url, "redis://redis:6379");
}

#[test]
fn test_config_service_default_url() {
    assert_eq!(ConfigService::default_url(), "redis://127.0.0.1:6379");
    let c = ConfigService::with_url("redis://example:7000".to_string());
    assert_eq!(c.redis_url, "redis://example:7000");
}
