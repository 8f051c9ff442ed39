# moe-680m

Inference for a mixture-of-experts language model on an integrated GPU with
memory that the host and the device share. The library holds what decides,
lays out, parses and plans, verified with Verus; the program around it talks to
Vulkan, files, the terminal and the network.

## The library

| Module | What it holds |
| --- | --- |
| `gguf` | Model files: header, metadata, tensor index, configuration |
| `memory` | The arena: regions, tensor registry, weights by layer, loading |
| `pipeline` | The kinds of compute pipelines, and which fused paths there are |
| `inference` | The commands of a layer, of its experts and of the heads |
| `schedule` | Forward passes as steps, with the state behind each |
| `embedding` | Embeddings of tokens, hidden states in the arena |
| `router` | Choice of experts, and batches of tokens by expert |
| `sampling`, `generation` | Choice of tokens, and when a reply ends |
| `tokenizer` | Vocabulary, text to tokens and back |
| `server` | Requests, prompts, replies and event streams as text |
| `cli`, `tui` | Arguments, and the settings form |
| `vulkan` | Choice of a device, names and versions |
| `util`, `reference`, `quantize` | Floating-point bit patterns, quantised weights |
| `text`, `bytes`, `json`, `sort`, `align` | What the others are built on |
| `chain` | A second engine, which runs chains of dispatches, and the API in front of it |

Floating-point numbers are bit patterns in the library; arithmetic on them is
done in `app/`.
