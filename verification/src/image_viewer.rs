//! The page that shows an image to the user.
use vstd::prelude::*;

verus! {

pub const IMAGE_VIEWER_URI: &'static str = "ui://local-mcp/image-viewer-v1.html";

pub const MCP_APP_MIME_TYPE: &'static str = "text/html;profile=mcp-app";

pub const IMAGE_VIEWER_HTML: &'static str = r#"<!doctype html>
<html>
<head>
<meta charset="utf-8">
<meta name="viewport" content="width=device-width, initial-scale=1">
<style>
  html, body { margin: 0; padding: 0; background: transparent; }
  body { font-family: var(--font-sans, system-ui, sans-serif); }
  #status { padding: 12px; color: var(--color-text-secondary, #666); }
  #image { display: block; max-width: 100%; height: auto; border-radius: var(--border-radius-md, 8px); }
</style>
</head>
<body>
<div id="status">Loading image…</div>
<img id="image" alt="Image returned by local-mcp" hidden>
<script>
(() => {
  const imageEl = document.getElementById("image");
  const statusEl = document.getElementById("status");
  const pending = new Map();
  let nextId = 1;

  function post(message) {
    window.parent.postMessage(message, "*");
  }

  function request(method, params) {
    const id = nextId++;
    post({ jsonrpc: "2.0", id, method, params });
    return new Promise((resolve, reject) => {
      const timer = setTimeout(() => {
        pending.delete(id);
        reject(new Error(`${method} timed out`));
      }, 3000);
      pending.set(id, { resolve, reject, timer });
    });
  }

  function notify(method, params = {}) {
    post({ jsonrpc: "2.0", method, params });
  }

  function notifySize() {
    const rect = document.documentElement.getBoundingClientRect();
    notify("ui/notifications/size-changed", {
      width: Math.ceil(rect.width),
      height: Math.ceil(rect.height),
    });
  }

  function renderToolResult(result) {
    const content = Array.isArray(result?.content) ? result.content : [];
    const image = content.find((item) =>
      item && item.type === "image" && typeof item.data === "string"
    );
    if (!image) return false;

    const mimeType = typeof image.mimeType === "string" ? image.mimeType : "image/png";
    imageEl.onload = notifySize;
    imageEl.src = `data:${mimeType};base64,${image.data}`;
    imageEl.hidden = false;
    statusEl.hidden = true;
    return true;
  }

  function renderFromOpenAiCompatibilityBridge() {
    const metadata = window.openai?.toolResponseMetadata;
    return renderToolResult(metadata?.mcp_tool_result) ||
      renderToolResult(metadata?.call_tool_result);
  }

  window.addEventListener("openai:set_globals", () => {
    renderFromOpenAiCompatibilityBridge();
  }, { passive: true });

  window.addEventListener("message", (event) => {
    if (event.source !== window.parent) return;
    const message = event.data;
    if (!message || message.jsonrpc !== "2.0") return;

    if (message.id !== undefined && pending.has(message.id)) {
      const entry = pending.get(message.id);
      pending.delete(message.id);
      clearTimeout(entry.timer);
      if (message.error) entry.reject(message.error);
      else entry.resolve(message.result);
      return;
    }

    if (message.method === "ui/notifications/tool-result") {
      renderToolResult(message.params);
    }
  }, { passive: true });

  async function initialize() {
    try {
      await request("ui/initialize", {
        protocolVersion: "2026-01-26",
        appInfo: { name: "local-mcp image viewer", version: "1.0.0" },
        appCapabilities: { availableDisplayModes: ["inline"] },
      });
      notify("ui/notifications/initialized");
      return;
    } catch (_) {
      // Compatibility with hosts implementing the earlier MCP Apps handshake.
    }

    try {
      await request("initialize", {
        protocolVersion: "2026-01-26",
        clientInfo: { name: "local-mcp image viewer", version: "1.0.0" },
        capabilities: {},
      });
      notify("notifications/initialized");
    } catch (error) {
      statusEl.textContent = "Image viewer initialization failed.";
    }
  }

  renderFromOpenAiCompatibilityBridge();
  initialize();
})();
</script>
</body>
</html>"#;

} // verus!
