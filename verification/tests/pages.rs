use zhtta::server::WebServer;

#[test]
fn the_error_page_names_the_path() {
    assert_eq!(
        WebServer::respond_with_error_page("/srv/www/nothing.html"),
        b"HTTP/1.1 404 Not Found\r\n\r\nCannot open: /srv/www/nothing.html".to_vec()
    );
    assert_eq!(
        WebServer::respond_with_error_page("/é"),
        "HTTP/1.1 404 Not Found\r\n\r\nCannot open: /é".as_bytes().to_vec()
    );
}

#[test]
fn the_counter_page_tells_the_count() {
    let expected = "HTTP/1.1 200 OK\r\nContent-Type: text/html; charset=UTF-8\r\n\r\n\
<doctype !html><html><head><title>Hello, Rust!</title>\n             \
<style>body { background-color: #884414; color: #FFEEAA}\n                    \
h1 { font-size:2cm; text-align: center; color: black; text-shadow: 0 0 4mm red }\n                    \
h2 { font-size:2cm; text-align: center; color: black; text-shadow: 0 0 4mm green }\n             \
</style></head>\n             \
<body><h1>Greetings, Krusty!</h1>\n                     \
<h2>Visitor count: 42</h2></body></html>\r\n";
    assert_eq!(WebServer::respond_with_counter_page(42), expected.as_bytes().to_vec());
}

const PAGE: &str = "<p>It is <!--#exec cmd=\"date\" --> now.</p>";

#[test]
fn the_command_of_a_dynamic_page_is_found() {
    assert_eq!(WebServer::dynamic_command(PAGE).as_deref(), Some("date"));
    assert_eq!(WebServer::dynamic_command("<!--#exec cmd=\"\" -->").as_deref(), Some(""));
    assert_eq!(
        WebServer::dynamic_command("é <!--#exec cmd=\"ls | wc -l\" --> <!--#exec cmd=\"date\" -->")
            .as_deref(),
        Some("ls | wc -l")
    );
}

#[test]
fn a_page_without_a_whole_command_has_none() {
    assert_eq!(WebServer::dynamic_command("<p>plain</p>"), None);
    assert_eq!(WebServer::dynamic_command("<!--#exec cmd=\"date"), None);
    assert_eq!(WebServer::dynamic_command("date\" -->"), None);
    assert_eq!(WebServer::dynamic_command("\" --> <!--#exec cmd=\"date\" -->"), None);
}

#[test]
fn the_output_of_the_command_takes_its_place() {
    assert_eq!(
        WebServer::respond_with_dynamic_page(PAGE, "noon\n"),
        b"HTTP/1.1 200 OK\r\nContent-Type: text/html; charset=UTF-8\r\n\r\n\
<p>It is noon\n now.</p>"
            .to_vec()
    );
    assert_eq!(
        WebServer::respond_with_dynamic_page("é<!--#exec cmd=\"x\" -->ü", "ö"),
        "HTTP/1.1 200 OK\r\nContent-Type: text/html; charset=UTF-8\r\n\r\néöü".as_bytes().to_vec()
    );
}
